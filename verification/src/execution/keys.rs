//! Keys of exact rules: one cell, or several columns of a row.

use crate::bytes::{le, le_len, prefixed, push_le, push_le_signed, twos};
use crate::distinct::order::{Key, ValueRef};
use crate::encoding::{
    encodable, encoded, first_byte_is_tag, item_of, prefixed_splits, proper, tag_of, write_v1_value,
    Item,
};
use crate::error::{ErrorView, ProofFrameError};
use crate::text::{cat2, utf8};
use crate::value::{Batch, Cell, Schema};
use vstd::prelude::*;

verus! {

/// The exact key of a cell with one value: integers and booleans by number, floats by
/// bits, decimals by their bytes, texts and binaries as they are. Nothing for nulls and
/// nested values.
pub open spec fn scalar_key(cell: Cell) -> Option<Key> {
    match cell {
        Cell::Int8(v) => Some(Key::I64(v as int)),
        Cell::Int16(v) => Some(Key::I64(v as int)),
        Cell::Int32(v) => Some(Key::I64(v as int)),
        Cell::Int64(v) => Some(Key::I64(v as int)),
        Cell::Date32(v) => Some(Key::I64(v as int)),
        Cell::Date64(v) => Some(Key::I64(v as int)),
        Cell::Timestamp(_, v) => Some(Key::I64(v as int)),
        Cell::UInt8(v) => Some(Key::U64(v as int)),
        Cell::UInt16(v) => Some(Key::U64(v as int)),
        Cell::UInt32(v) => Some(Key::U64(v as int)),
        Cell::UInt64(v) => Some(Key::U64(v as int)),
        Cell::Boolean(b) => Some(Key::U64(if b { 1 } else { 0 })),
        Cell::Float32(b) => Some(Key::F64(b as int)),
        Cell::Float64(b) => Some(Key::F64(b as int)),
        Cell::Decimal128(v) => Some(Key::Bytes(le(twos(v as int), 16))),
        Cell::Utf8(s) => Some(Key::Bytes(utf8(s@))),
        Cell::LargeUtf8(s) => Some(Key::Bytes(utf8(s@))),
        Cell::Utf8View(s) => Some(Key::Bytes(utf8(s@))),
        Cell::Binary(b) => Some(Key::Bytes(b@)),
        Cell::LargeBinary(b) => Some(Key::Bytes(b@)),
        Cell::BinaryView(b) => Some(Key::Bytes(b@)),
        _ => None,
    }
}

/// The exact key of a cell: that of its value, or the canonical bytes of a nested one.
pub open spec fn exact_key(cell: Cell) -> Option<Key> {
    match scalar_key(cell) {
        Some(k) => Some(k),
        None => if !(cell is Null) && encodable(item_of(cell)) {
            Some(Key::Bytes(encoded(item_of(cell))))
        } else {
            None
        },
    }
}

/// The number or bytes of a cell's key.
pub enum KeyBuffer {
    I64(i64),
    U64(u64),
    F64(u64),
    Bytes(Vec<u8>),
}

impl View for KeyBuffer {
    type V = Key;

    open spec fn view(&self) -> Key {
        match *self {
            KeyBuffer::I64(v) => Key::I64(v as int),
            KeyBuffer::U64(v) => Key::U64(v as int),
            KeyBuffer::F64(v) => Key::F64(v as int),
            KeyBuffer::Bytes(b) => Key::Bytes(b@),
        }
    }
}

impl KeyBuffer {
    /// The key as a value to insert.
    pub fn as_value(&self) -> (r: ValueRef<'_>)
        ensures
            r@ == self@,
    {
        match self {
            KeyBuffer::I64(v) => ValueRef::I64(*v),
            KeyBuffer::U64(v) => ValueRef::U64(*v),
            KeyBuffer::F64(v) => ValueRef::F64(*v),
            KeyBuffer::Bytes(b) => ValueRef::Bytes(b.as_slice()),
        }
    }
}

fn copied(b: &[u8]) -> (r: Vec<u8>)
    ensures
        r@ == b@,
{
    let r = crate::bytes::slice_of(b, 0, b.len());
    assert(r@ =~= b@);
    r
}

/// The exact key of a cell with one value.
pub fn scalar_key_of(cell: &Cell) -> (r: Option<KeyBuffer>)
    ensures
        match scalar_key(*cell) {
            Some(k) => r matches Some(b) && b@ == k,
            None => r is None,
        },
{
    match cell {
        Cell::Int8(v) => Some(KeyBuffer::I64(*v as i64)),
        Cell::Int16(v) => Some(KeyBuffer::I64(*v as i64)),
        Cell::Int32(v) => Some(KeyBuffer::I64(*v as i64)),
        Cell::Int64(v) => Some(KeyBuffer::I64(*v)),
        Cell::Date32(v) => Some(KeyBuffer::I64(*v as i64)),
        Cell::Date64(v) => Some(KeyBuffer::I64(*v)),
        Cell::Timestamp(_, v) => Some(KeyBuffer::I64(*v)),
        Cell::UInt8(v) => Some(KeyBuffer::U64(*v as u64)),
        Cell::UInt16(v) => Some(KeyBuffer::U64(*v as u64)),
        Cell::UInt32(v) => Some(KeyBuffer::U64(*v as u64)),
        Cell::UInt64(v) => Some(KeyBuffer::U64(*v)),
        Cell::Boolean(b) => Some(
            KeyBuffer::U64(
                if *b {
                    1
                } else {
                    0
                },
            ),
        ),
        Cell::Float32(b) => Some(KeyBuffer::F64(*b as u64)),
        Cell::Float64(b) => Some(KeyBuffer::F64(*b)),
        Cell::Decimal128(v) => {
            let mut out: Vec<u8> = Vec::new();
            push_le_signed(&mut out, *v, 16);
            assert(out@ =~= le(twos(*v as int), 16));
            Some(KeyBuffer::Bytes(out))
        },
        Cell::Utf8(s) => Some(KeyBuffer::Bytes(copied(s.as_str().as_bytes()))),
        Cell::LargeUtf8(s) => Some(KeyBuffer::Bytes(copied(s.as_str().as_bytes()))),
        Cell::Utf8View(s) => Some(KeyBuffer::Bytes(copied(s.as_str().as_bytes()))),
        Cell::Binary(b) => Some(KeyBuffer::Bytes(copied(b.as_slice()))),
        Cell::LargeBinary(b) => Some(KeyBuffer::Bytes(copied(b.as_slice()))),
        Cell::BinaryView(b) => Some(KeyBuffer::Bytes(copied(b.as_slice()))),
        _ => None,
    }
}

/// The exact key of a cell.
pub fn exact_key_of(cell: &Cell) -> (r: Option<KeyBuffer>)
    ensures
        match exact_key(*cell) {
            Some(k) => r matches Some(b) && b@ == k,
            None => r is None,
        },
{
    match scalar_key_of(cell) {
        Some(k) => Some(k),
        None => match cell {
            Cell::Null => None,
            _ => match crate::encoding::canonical_value_bytes(cell) {
                Some(b) => Some(KeyBuffer::Bytes(b)),
                None => None,
            },
        },
    }
}

/// Whether a cell has one value that keys of several columns can hold.
pub open spec fn keyable(cell: Cell) -> bool {
    match item_of(cell) {
        Item::Scalar(_, _) => true,
        Item::Bytes(_, _) => true,
        _ => false,
    }
}

/// Appends the canonical bytes of a value that is neither null nor nested.
pub fn append_scalar(cell: &Cell, shown: &str, out: &mut Vec<u8>) -> (r: Result<
    (),
    ProofFrameError,
>)
    ensures
        if keyable(*cell) {
            r is Ok && final(out)@ == old(out)@ + encoded(item_of(*cell))
        } else {
            (r matches Err(e) && e@ == ErrorView::UnsupportedType(
                "composite uniqueness for "@ + shown@,
            )) && final(out)@ == old(out)@
        },
{
    let fine = match cell {
        Cell::Null
        | Cell::List(_)
        | Cell::LargeList(_)
        | Cell::FixedSizeList(_)
        | Cell::Struct(_)
        | Cell::Entries(_)
        | Cell::Other => false,
        _ => true,
    };
    if !fine {
        return Err(
            ProofFrameError::UnsupportedType(cat2("composite uniqueness for ", shown)),
        );
    }
    let done = write_v1_value(cell, out);
    Ok(())
}

/// One column of a composite key: its number, a presence flag, and its canonical bytes.
pub open spec fn key_part(number: nat, cell: Cell) -> Seq<u8> {
    le(number, 8) + if cell is Null {
        seq![0u8]
    } else {
        seq![1u8] + encoded(item_of(cell))
    }
}

/// The first `n` columns of a composite key.
pub open spec fn composite_bytes(
    key: Seq<usize>,
    columns: Seq<Vec<Cell>>,
    row: int,
    n: nat,
) -> Seq<u8>
    decreases n,
{
    if n == 0 {
        Seq::empty()
    } else {
        composite_bytes(key, columns, row, (n - 1) as nat) + key_part(
            key[n - 1] as nat,
            columns[key[n - 1] as int]@[row],
        )
    }
}

/// The first of a key's columns with a value that a key cannot hold.
pub open spec fn unkeyable(
    key: Seq<usize>,
    columns: Seq<Vec<Cell>>,
    row: int,
    n: nat,
) -> Option<int>
    decreases n,
{
    if n == 0 {
        None
    } else {
        match unkeyable(key, columns, row, (n - 1) as nat) {
            Some(j) => Some(j),
            None => {
                let cell = columns[key[n - 1] as int]@[row];
                if cell is Null || keyable(cell) {
                    None
                } else {
                    Some(n - 1)
                }
            },
        }
    }
}

/// Whether one of a key's columns is null.
pub open spec fn key_has_null(key: Seq<usize>, columns: Seq<Vec<Cell>>, row: int) -> bool {
    exists|j: int| 0 <= j < key.len() && columns[#[trigger] key[j] as int]@[row] is Null
}

/// Whether the columns of a key stand in a batch with a schema.
pub open spec fn key_in_range(key: Seq<usize>, schema: Schema, columns: int) -> bool {
    schema.fields@.len() == columns && forall|j: int|
        0 <= j < key.len() ==> (#[trigger] key[j]) < columns
}

/// An unkeyable column stays the first.
proof fn unkeyable_stays(key: Seq<usize>, columns: Seq<Vec<Cell>>, row: int, i: nat, n: nat)
    requires
        i <= n,
        unkeyable(key, columns, row, i) is Some,
    ensures
        unkeyable(key, columns, row, n) == unkeyable(key, columns, row, i),
    decreases n,
{
    if i < n {
        unkeyable_stays(key, columns, row, i, (n - 1) as nat);
    }
}

/// The composite key of a row, and whether one of its columns is null.
pub fn composite_key(key: &Vec<usize>, schema: &Schema, batch: &Batch, row: usize) -> (r: Result<
    (Vec<u8>, bool),
    ProofFrameError,
>)
    requires
        batch.wf(),
        row < batch.rows,
        key_in_range(key@, *schema, batch.columns@.len() as int),
    ensures
        match unkeyable(key@, batch.columns@, row as int, key@.len()) {
            Some(j) => r matches Err(e) && e@ == ErrorView::UnsupportedType(
                "composite uniqueness for "@ + schema.fields@[key@[j] as int].type_text@,
            ),
            None => (r matches Ok(k) && k.0@ == composite_bytes(
                key@,
                batch.columns@,
                row as int,
                key@.len(),
            ) && k.1 == key_has_null(key@, batch.columns@, row as int)),
        },
{
    let mut out: Vec<u8> = Vec::new();
    let mut null = false;
    let mut j: usize = 0;
    while j < key.len()
        invariant
            j <= key@.len(),
            batch.wf(),
            row < batch.rows,
            key_in_range(key@, *schema, batch.columns@.len() as int),
            unkeyable(key@, batch.columns@, row as int, j as nat) is None,
            out@ == composite_bytes(key@, batch.columns@, row as int, j as nat),
            null == exists|k: int|
                0 <= k < j && batch.columns@[#[trigger] key@[k] as int]@[row as int] is Null,
        decreases key@.len() - j,
    {
        let index: usize = key[j];
        assert(key@[j as int] < batch.columns@.len());
        let column = &batch.columns[index];
        let cell = &column[row];
        let ghost so_far = out@;
        push_le(&mut out, index as u128, 8);
        let here = match cell {
            Cell::Null => true,
            _ => false,
        };
        if here {
            out.push(0);
            null = true;
            assert(batch.columns@[key@[j as int] as int]@[row as int] is Null);
            assert(out@ =~= so_far + key_part(index as nat, *cell));
        } else {
            out.push(1);
            match append_scalar(cell, schema.fields[index].type_text.as_str(), &mut out) {
                Ok(()) => {
                    assert(out@ =~= so_far + key_part(index as nat, *cell));
                },
                Err(e) => {
                    proof {
                        unkeyable_stays(
                            key@,
                            batch.columns@,
                            row as int,
                            (j + 1) as nat,
                            key@.len(),
                        );
                    }
                    return Err(e);
                },
            }
        }
        j = j + 1;
    }
    Ok((out, null))
}

/// Canonical bytes of two values, followed by more, are equal only value by value.
pub proof fn encoded_splits(a: Item, x: Seq<u8>, b: Item, y: Seq<u8>)
    requires
        proper(a),
        proper(b),
        a is Scalar || a is Bytes,
        b is Scalar || b is Bytes,
        encoded(a) + x == encoded(b) + y,
    ensures
        a == b,
        x == y,
{
    first_byte_is_tag(a);
    first_byte_is_tag(b);
    let l = encoded(a) + x;
    let r = encoded(b) + y;
    assert(l[0] == tag_of(a));
    assert(r[0] == tag_of(b));
    match (a, b) {
        (Item::Scalar(t, p), Item::Scalar(u, q)) => {
            let w = p.len() as int;
            assert(l.subrange(1, 1 + w) =~= p);
            assert(r.subrange(1, 1 + w) =~= q);
            assert(l.skip(1 + w) =~= x);
            assert(r.skip(1 + w) =~= y);
        },
        (Item::Bytes(t, p), Item::Bytes(u, q)) => {
            assert(l.skip(1) =~= prefixed(p) + x);
            assert(r.skip(1) =~= prefixed(q) + y);
            prefixed_splits(p, x, q, y);
        },
        _ => {},
    }
}

/// Two rows have the same composite key exactly where every key column holds the same
/// value in both: no value can shift into its neighbour.
pub proof fn composite_key_is_injective(
    key: Seq<usize>,
    a: Seq<Vec<Cell>>,
    i: int,
    b: Seq<Vec<Cell>>,
    k: int,
    n: nat,
)
    requires
        n <= key.len(),
        forall|j: int|
            #![trigger key[j]]
            0 <= j < n ==> {
                let x = a[key[j] as int]@[i];
                let y = b[key[j] as int]@[k];
                (x is Null || (keyable(x) && proper(item_of(x)))) && (y is Null || (keyable(y)
                    && proper(item_of(y))))
            },
    ensures
        composite_bytes(key, a, i, n) == composite_bytes(key, b, k, n) <==> forall|j: int|
            #![trigger key[j]]
            0 <= j < n ==> item_of(a[key[j] as int]@[i]) == item_of(b[key[j] as int]@[k]),
{
    suffix_is_injective(key, a, i, b, k, 0, n, Seq::empty(), Seq::empty());
    assert(composite_bytes(key, a, i, n) + Seq::<u8>::empty() =~= composite_bytes(key, a, i, n));
    assert(composite_bytes(key, b, k, n) + Seq::<u8>::empty() =~= composite_bytes(key, b, k, n));
    from_parts(key, a, i, n);
    from_parts(key, b, k, n);
    if forall|j: int|
        #![trigger key[j]]
        0 <= j < n ==> item_of(a[key[j] as int]@[i]) == item_of(b[key[j] as int]@[k]) {
        same_parts(key, a, i, b, k, n);
    }
}

/// The columns of a key from one position on.
spec fn parts_from(key: Seq<usize>, columns: Seq<Vec<Cell>>, row: int, from: nat, n: nat) -> Seq<u8>
    decreases n - from,
{
    if from >= n {
        Seq::empty()
    } else {
        key_part(key[from as int] as nat, columns[key[from as int] as int]@[row]) + parts_from(
            key,
            columns,
            row,
            from + 1,
            n,
        )
    }
}

proof fn parts_push(key: Seq<usize>, columns: Seq<Vec<Cell>>, row: int, from: nat, n: nat)
    requires
        from <= n,
    ensures
        parts_from(key, columns, row, from, n + 1) == parts_from(key, columns, row, from, n)
            + key_part(key[n as int] as nat, columns[key[n as int] as int]@[row]),
    decreases n - from,
{
    if from < n {
        parts_push(key, columns, row, from + 1, n);
        assert(parts_from(key, columns, row, from, n + 1) =~= parts_from(
            key,
            columns,
            row,
            from,
            n,
        ) + key_part(key[n as int] as nat, columns[key[n as int] as int]@[row]));
    } else {
        let p = key_part(key[n as int] as nat, columns[key[n as int] as int]@[row]);
        assert(parts_from(key, columns, row, n + 1, n + 1) =~= Seq::empty());
        assert(p + Seq::<u8>::empty() =~= Seq::<u8>::empty() + p);
    }
}

proof fn from_parts(key: Seq<usize>, columns: Seq<Vec<Cell>>, row: int, n: nat)
    ensures
        composite_bytes(key, columns, row, n) == parts_from(key, columns, row, 0, n),
    decreases n,
{
    if n > 0 {
        from_parts(key, columns, row, (n - 1) as nat);
        parts_push(key, columns, row, 0, (n - 1) as nat);
    }
}

proof fn same_parts(
    key: Seq<usize>,
    a: Seq<Vec<Cell>>,
    i: int,
    b: Seq<Vec<Cell>>,
    k: int,
    n: nat,
)
    requires
        n <= key.len(),
        forall|j: int|
            #![trigger key[j]]
            0 <= j < n ==> item_of(a[key[j] as int]@[i]) == item_of(b[key[j] as int]@[k]),
    ensures
        composite_bytes(key, a, i, n) == composite_bytes(key, b, k, n),
    decreases n,
{
    if n > 0 {
        same_parts(key, a, i, b, k, (n - 1) as nat);
        let x = a[key[n - 1] as int]@[i];
        let y = b[key[n - 1] as int]@[k];
        assert(item_of(x) == item_of(y));
        null_items(x);
        null_items(y);
    }
}

proof fn null_items(cell: Cell)
    ensures
        item_of(cell) is Null <==> cell is Null,
{
}

proof fn suffix_is_injective(
    key: Seq<usize>,
    a: Seq<Vec<Cell>>,
    i: int,
    b: Seq<Vec<Cell>>,
    k: int,
    from: nat,
    n: nat,
    x: Seq<u8>,
    y: Seq<u8>,
)
    requires
        n <= key.len(),
        forall|j: int|
            #![trigger key[j]]
            0 <= j < n ==> {
                let p = a[key[j] as int]@[i];
                let q = b[key[j] as int]@[k];
                (p is Null || (keyable(p) && proper(item_of(p)))) && (q is Null || (keyable(q)
                    && proper(item_of(q))))
            },
    ensures
        parts_from(key, a, i, from, n) + x == parts_from(key, b, k, from, n) + y ==> (x == y
            && forall|j: int|
            #![trigger key[j]]
            from <= j < n ==> item_of(a[key[j] as int]@[i]) == item_of(b[key[j] as int]@[k])),
    decreases n - from,
{
    if parts_from(key, a, i, from, n) + x == parts_from(key, b, k, from, n) + y {
        if from >= n {
            assert(Seq::<u8>::empty() + x =~= x);
            assert(Seq::<u8>::empty() + y =~= y);
        } else {
            let p = a[key[from as int] as int]@[i];
            let q = b[key[from as int] as int]@[k];
            let ra = parts_from(key, a, i, from + 1, n) + x;
            let rb = parts_from(key, b, k, from + 1, n) + y;
            let number = key[from as int] as nat;
            le_len(number, 8);
            let l = parts_from(key, a, i, from, n) + x;
            let r = parts_from(key, b, k, from, n) + y;
            null_items(p);
            null_items(q);
            assert(l =~= key_part(number, p) + ra);
            assert(r =~= key_part(number, q) + rb);
            assert(l[8] == if p is Null { 0u8 } else { 1u8 });
            assert(r[8] == if q is Null { 0u8 } else { 1u8 });
            if p is Null {
                assert(l.skip(9) =~= ra);
                assert(r.skip(9) =~= rb);
            } else {
                assert(l.skip(9) =~= encoded(item_of(p)) + ra);
                assert(r.skip(9) =~= encoded(item_of(q)) + rb);
                encoded_splits(item_of(p), ra, item_of(q), rb);
            }
            suffix_is_injective(key, a, i, b, k, from + 1, n, x, y);
            assert forall|j: int|
                #![trigger key[j]]
                from <= j < n implies item_of(a[key[j] as int]@[i]) == item_of(
                b[key[j] as int]@[k],
            ) by {
                if j == from {
                    assert(item_of(p) == item_of(q));
                }
            }
        }
    }
}

} // verus!
