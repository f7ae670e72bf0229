//! Canonical, versioned encodings of cells and schemas, and dataset fingerprints.

use crate::bytes::{
    le, le_round_trip, prefixed, push_all, push_le, push_le_signed, push_prefixed, span, spans,
    twos, twos_tell_apart,
};
use crate::text::{utf8, utf8_injective};
use crate::value::{Cell, TimeUnit};
use vstd::prelude::*;

verus! {

/// A cell as the encodings see it: a null, a value of fixed width, a byte string, or a
/// list of further values. The first part is the tag of its type.
pub enum Item {
    Null,
    Scalar(u8, Seq<u8>),
    Bytes(u8, Seq<u8>),
    Nested(u8, Seq<Item>),
    Unsupported,
}

/// The encoding tag of a timestamp.
pub open spec fn timestamp_tag(unit: TimeUnit) -> u8 {
    match unit {
        TimeUnit::Second => 13,
        TimeUnit::Millisecond => 14,
        TimeUnit::Microsecond => 15,
        TimeUnit::Nanosecond => 16,
    }
}

/// What the encodings see of a cell.
pub open spec fn item_of(cell: Cell) -> Item
    decreases cell, 0nat,
{
    match cell {
        Cell::Null => Item::Null,
        Cell::Int8(v) => Item::Scalar(1, le(twos(v as int), 1)),
        Cell::Int16(v) => Item::Scalar(2, le(twos(v as int), 2)),
        Cell::Int32(v) => Item::Scalar(3, le(twos(v as int), 4)),
        Cell::Int64(v) => Item::Scalar(4, le(twos(v as int), 8)),
        Cell::UInt8(v) => Item::Scalar(5, le(v as nat, 1)),
        Cell::UInt16(v) => Item::Scalar(6, le(v as nat, 2)),
        Cell::UInt32(v) => Item::Scalar(7, le(v as nat, 4)),
        Cell::UInt64(v) => Item::Scalar(8, le(v as nat, 8)),
        Cell::Float32(v) => Item::Scalar(9, le(v as nat, 4)),
        Cell::Float64(v) => Item::Scalar(10, le(v as nat, 8)),
        Cell::Date32(v) => Item::Scalar(11, le(twos(v as int), 4)),
        Cell::Date64(v) => Item::Scalar(12, le(twos(v as int), 8)),
        Cell::Timestamp(unit, v) => Item::Scalar(timestamp_tag(unit), le(twos(v as int), 8)),
        Cell::Decimal128(v) => Item::Scalar(17, le(twos(v as int), 16)),
        Cell::Boolean(b) => Item::Scalar(18, seq![if b { 1u8 } else { 0u8 }]),
        Cell::Utf8(s) => Item::Bytes(19, utf8(s@)),
        Cell::LargeUtf8(s) => Item::Bytes(20, utf8(s@)),
        Cell::Binary(b) => Item::Bytes(21, b@),
        Cell::LargeBinary(b) => Item::Bytes(22, b@),
        Cell::Utf8View(s) => Item::Bytes(28, utf8(s@)),
        Cell::BinaryView(b) => Item::Bytes(29, b@),
        Cell::List(v) => Item::Nested(23, items_of(v@, v@.len())),
        Cell::LargeList(v) => Item::Nested(24, items_of(v@, v@.len())),
        Cell::FixedSizeList(v) => Item::Nested(25, items_of(v@, v@.len())),
        Cell::Struct(v) => Item::Nested(26, items_of(v@, v@.len())),
        Cell::Entries(v) => Item::Nested(27, items_of(v@, v@.len())),
        Cell::Other => Item::Unsupported,
    }
}

/// What the encodings see of the first `n` cells of a list.
pub open spec fn items_of(cells: Seq<Cell>, n: nat) -> Seq<Item>
    decreases cells, n,
{
    if n == 0 || n > cells.len() {
        Seq::empty()
    } else {
        items_of(cells, (n - 1) as nat).push(item_of(cells[n - 1]))
    }
}

/// The items of a list are those of its cells, one by one.
pub proof fn items_of_each(cells: Seq<Cell>, n: nat)
    requires
        n <= cells.len(),
    ensures
        items_of(cells, n).len() == n,
        forall|i: int| 0 <= i < n ==> #[trigger] items_of(cells, n)[i] == item_of(cells[i]),
    decreases n,
{
    if n > 0 {
        items_of_each(cells, (n - 1) as nat);
    }
}

/// The canonical bytes of an item: its tag, then a value of fixed width, or a length and
/// that many bytes, or a count and that many encodings, each behind its length.
pub open spec fn encoded(item: Item) -> Seq<u8>
    decreases item, 0nat,
{
    match item {
        Item::Null => seq![0u8],
        Item::Scalar(tag, bytes) => seq![tag] + bytes,
        Item::Bytes(tag, bytes) => seq![tag] + prefixed(bytes),
        Item::Nested(tag, items) => seq![tag] + le(items.len(), 8) + encoded_from(
            items,
            items.len(),
        ),
        Item::Unsupported => Seq::empty(),
    }
}

/// The encodings of the last `n` items of a list, each behind its length.
pub open spec fn encoded_from(items: Seq<Item>, n: nat) -> Seq<u8>
    decreases items, n,
{
    if n == 0 || n > items.len() {
        Seq::empty()
    } else {
        prefixed(encoded(items[items.len() - n])) + encoded_from(items, (n - 1) as nat)
    }
}

/// Whether an item holds no value without an encoding.
pub open spec fn encodable(item: Item) -> bool
    decreases item, 0nat,
{
    match item {
        Item::Nested(tag, items) => all_encodable(items, items.len()),
        Item::Unsupported => false,
        _ => true,
    }
}

/// Whether the first `n` items of a list can be encoded.
pub open spec fn all_encodable(items: Seq<Item>, n: nat) -> bool
    decreases items, n,
{
    n == 0 || (n <= items.len() && all_encodable(items, (n - 1) as nat) && encodable(
        items[n - 1],
    ))
}

/// Appends the canonical bytes of a cell; nothing is appended for a cell that holds a
/// value without an encoding, and `false` is returned.
pub fn write_v1_value(cell: &Cell, out: &mut Vec<u8>) -> (done: bool)
    ensures
        done == encodable(item_of(*cell)),
        done ==> final(out)@ == old(out)@ + encoded(item_of(*cell)),
        !done ==> final(out)@ == old(out)@,
    decreases *cell, 0nat,
{
    match cell {
        Cell::Null => {
            out.push(0);
            assert(out@ =~= old(out)@ + encoded(item_of(*cell)));
            true
        },
        Cell::Int8(v) => write_signed(out, 1, *v as i128, 1),
        Cell::Int16(v) => write_signed(out, 2, *v as i128, 2),
        Cell::Int32(v) => write_signed(out, 3, *v as i128, 4),
        Cell::Int64(v) => write_signed(out, 4, *v as i128, 8),
        Cell::UInt8(v) => write_unsigned(out, 5, *v as u128, 1),
        Cell::UInt16(v) => write_unsigned(out, 6, *v as u128, 2),
        Cell::UInt32(v) => write_unsigned(out, 7, *v as u128, 4),
        Cell::UInt64(v) => write_unsigned(out, 8, *v as u128, 8),
        Cell::Float32(v) => write_unsigned(out, 9, *v as u128, 4),
        Cell::Float64(v) => write_unsigned(out, 10, *v as u128, 8),
        Cell::Date32(v) => write_signed(out, 11, *v as i128, 4),
        Cell::Date64(v) => write_signed(out, 12, *v as i128, 8),
        Cell::Timestamp(unit, v) => write_signed(out, time_tag(*unit), *v as i128, 8),
        Cell::Decimal128(v) => write_signed(out, 17, *v, 16),
        Cell::Boolean(b) => {
            out.push(18);
            out.push(if *b {
                1
            } else {
                0
            });
            assert(out@ =~= old(out)@ + encoded(item_of(*cell)));
            true
        },
        Cell::Utf8(s) => write_bytes_value(out, 19, s.as_str().as_bytes()),
        Cell::LargeUtf8(s) => write_bytes_value(out, 20, s.as_str().as_bytes()),
        Cell::Binary(b) => write_bytes_value(out, 21, b.as_slice()),
        Cell::LargeBinary(b) => write_bytes_value(out, 22, b.as_slice()),
        Cell::Utf8View(s) => write_bytes_value(out, 28, s.as_str().as_bytes()),
        Cell::BinaryView(b) => write_bytes_value(out, 29, b.as_slice()),
        Cell::List(v) => write_child_sequence(out, 23, v),
        Cell::LargeList(v) => write_child_sequence(out, 24, v),
        Cell::FixedSizeList(v) => write_child_sequence(out, 25, v),
        Cell::Struct(v) => write_child_sequence(out, 26, v),
        Cell::Entries(v) => write_child_sequence(out, 27, v),
        Cell::Other => false,
    }
}

fn time_tag(unit: TimeUnit) -> (tag: u8)
    ensures
        tag == timestamp_tag(unit),
{
    match unit {
        TimeUnit::Second => 13,
        TimeUnit::Millisecond => 14,
        TimeUnit::Microsecond => 15,
        TimeUnit::Nanosecond => 16,
    }
}

fn write_signed(out: &mut Vec<u8>, tag: u8, v: i128, width: usize) -> (done: bool)
    requires
        width <= 16,
    ensures
        done,
        final(out)@ == old(out)@ + encoded(
            Item::Scalar(tag, le(twos(v as int), width as nat)),
        ),
{
    out.push(tag);
    push_le_signed(out, v, width);
    assert(out@ =~= old(out)@ + (seq![tag] + le(twos(v as int), width as nat)));
    true
}

fn write_unsigned(out: &mut Vec<u8>, tag: u8, v: u128, width: usize) -> (done: bool)
    ensures
        done,
        final(out)@ == old(out)@ + encoded(Item::Scalar(tag, le(v as nat, width as nat))),
{
    out.push(tag);
    push_le(out, v, width);
    assert(out@ =~= old(out)@ + (seq![tag] + le(v as nat, width as nat)));
    true
}

/// Appends a tag, a length, and that many bytes.
pub fn write_bytes_value(out: &mut Vec<u8>, tag: u8, value: &[u8]) -> (done: bool)
    ensures
        done,
        final(out)@ == old(out)@ + encoded(Item::Bytes(tag, value@)),
{
    out.push(tag);
    push_prefixed(out, value);
    assert(out@ =~= old(out)@ + (seq![tag] + prefixed(value@)));
    true
}

/// Appends a tag, a count, and the encoding of every cell behind its length.
fn write_child_sequence(out: &mut Vec<u8>, tag: u8, cells: &Vec<Cell>) -> (done: bool)
    ensures
        done == encodable(Item::Nested(tag, items_of(cells@, cells@.len()))),
        done ==> final(out)@ == old(out)@ + encoded(
            Item::Nested(tag, items_of(cells@, cells@.len())),
        ),
        !done ==> final(out)@ == old(out)@,
    decreases cells@, 1nat,
{
    let ghost items = items_of(cells@, cells@.len());
    let ghost item = Item::Nested(tag, items);
    proof {
        items_of_each(cells@, cells@.len());
    }
    let mut body: Vec<u8> = Vec::new();
    body.push(tag);
    push_le(&mut body, cells.len() as u128, 8);
    assert(body@ =~= seq![tag] + le(items.len(), 8));
    let mut i: usize = 0;
    while i < cells.len()
        invariant
            i <= cells@.len(),
            items == items_of(cells@, cells@.len()),
            items.len() == cells@.len(),
            item == Item::Nested(tag, items),
            forall|j: int| 0 <= j < items.len() ==> #[trigger] items[j] == item_of(cells@[j]),
            all_encodable(items, i as nat),
            body@ + encoded_from(items, (items.len() - i) as nat) == encoded(item),
        decreases cells@.len() - i,
    {
        let mut child: Vec<u8> = Vec::new();
        let fine = write_v1_value(&cells[i], &mut child);
        assert(items[i as int] == item_of(cells@[i as int]));
        if !fine {
            proof {
                not_all_encodable(items, items.len(), i as int);
            }
            return false;
        }
        let ghost before = body@;
        push_prefixed(&mut body, child.as_slice());
        proof {
            assert(child@ =~= encoded(items[i as int]));
            assert(items.len() - (items.len() - i) == i);
            assert(before + encoded_from(items, (items.len() - i) as nat) =~= body@
                + encoded_from(items, (items.len() - i - 1) as nat));
        }
        i = i + 1;
    }
    assert(body@ + encoded_from(items, 0) =~= body@);
    push_all(out, body.as_slice());
    true
}

proof fn not_all_encodable(items: Seq<Item>, n: nat, i: int)
    requires
        0 <= i < n,
        i < items.len(),
        !encodable(items[i]),
    ensures
        !all_encodable(items, n),
    decreases n,
{
    if n <= items.len() && i < n - 1 {
        not_all_encodable(items, (n - 1) as nat, i);
    }
}

/// The canonical bytes of a cell, or nothing where it holds a value without an encoding.
pub fn canonical_value_bytes(cell: &Cell) -> (r: Option<Vec<u8>>)
    ensures
        match r {
            Some(b) => encodable(item_of(*cell)) && b@ == encoded(item_of(*cell)),
            None => !encodable(item_of(*cell)),
        },
{
    let mut out: Vec<u8> = Vec::new();
    if write_v1_value(cell, &mut out) {
        assert(out@ =~= encoded(item_of(*cell)));
        Some(out)
    } else {
        None
    }
}

/// The width of a scalar of each tag.
pub open spec fn scalar_width(tag: u8) -> nat {
    if tag == 1 || tag == 5 || tag == 18 {
        1
    } else if tag == 2 || tag == 6 {
        2
    } else if tag == 3 || tag == 7 || tag == 9 || tag == 11 {
        4
    } else if tag == 17 {
        16
    } else {
        8
    }
}

/// An item with the tag and width of its kind, whose lengths fit in eight bytes.
pub open spec fn proper(item: Item) -> bool
    decreases item, 0nat,
{
    match item {
        Item::Null => true,
        Item::Scalar(tag, bytes) => 1 <= tag <= 18 && bytes.len() == scalar_width(tag),
        Item::Bytes(tag, bytes) => (19 <= tag <= 22 || tag == 28 || tag == 29) && bytes.len()
            < span(8),
        Item::Nested(tag, items) => 23 <= tag <= 27 && items.len() < span(8) && all_proper(
            items,
            items.len(),
        ),
        Item::Unsupported => false,
    }
}

/// Whether the last `n` items of a list are proper, with encodings whose lengths fit in
/// eight bytes.
pub open spec fn all_proper(items: Seq<Item>, n: nat) -> bool
    decreases items, n,
{
    n == 0 || (n <= items.len() && proper(items[items.len() - n]) && encoded(
        items[items.len() - n],
    ).len() < span(8) && all_proper(items, (n - 1) as nat))
}

/// Two length-prefixed strings followed by more are equal only piece by piece.
pub proof fn prefixed_splits(a: Seq<u8>, x: Seq<u8>, b: Seq<u8>, y: Seq<u8>)
    requires
        a.len() < span(8),
        b.len() < span(8),
        prefixed(a) + x == prefixed(b) + y,
    ensures
        a == b,
        x == y,
{
    let l = prefixed(a) + x;
    let r = prefixed(b) + y;
    le_round_trip(a.len(), 8);
    le_round_trip(b.len(), 8);
    assert(l.take(8) =~= le(a.len(), 8));
    assert(r.take(8) =~= le(b.len(), 8));
    assert(l.subrange(8, 8 + a.len() as int) =~= a);
    assert(r.subrange(8, 8 + b.len() as int) =~= b);
    assert(l.skip(8 + a.len() as int) =~= x);
    assert(r.skip(8 + b.len() as int) =~= y);
}

/// The tag of an item's kind.
pub open spec fn tag_of(item: Item) -> u8 {
    match item {
        Item::Scalar(tag, _) => tag,
        Item::Bytes(tag, _) => tag,
        Item::Nested(tag, _) => tag,
        _ => 0,
    }
}

/// Canonical bytes start with the tag of the value's kind.
pub proof fn first_byte_is_tag(item: Item)
    requires
        proper(item),
    ensures
        encoded(item).len() > 0,
        encoded(item)[0] == tag_of(item),
{
}

/// Two proper items with equal canonical bytes are equal: no value of one type has the
/// bytes of another, a list never has the bytes of its only element, and the bounds of
/// nested values cannot be moved.
pub proof fn encoding_is_injective(a: Item, b: Item)
    requires
        proper(a),
        proper(b),
        encoded(a) == encoded(b),
    ensures
        a == b,
    decreases a, 0nat,
{
    first_byte_is_tag(a);
    first_byte_is_tag(b);
    match (a, b) {
        (Item::Null, Item::Null) => {},
        (Item::Scalar(t, x), Item::Scalar(u, y)) => {
            assert(encoded(a).skip(1) =~= x);
            assert(encoded(b).skip(1) =~= y);
        },
        (Item::Bytes(t, x), Item::Bytes(u, y)) => {
            assert(encoded(a).skip(1) =~= prefixed(x) + Seq::<u8>::empty());
            assert(encoded(b).skip(1) =~= prefixed(y) + Seq::<u8>::empty());
            prefixed_splits(x, Seq::empty(), y, Seq::empty());
        },
        (Item::Nested(t, x), Item::Nested(u, y)) => {
            le_round_trip(x.len(), 8);
            le_round_trip(y.len(), 8);
            assert(encoded(a).subrange(1, 9) =~= le(x.len(), 8));
            assert(encoded(b).subrange(1, 9) =~= le(y.len(), 8));
            assert(encoded(a).skip(9) =~= encoded_from(x, x.len()));
            assert(encoded(b).skip(9) =~= encoded_from(y, y.len()));
            list_encoding_is_injective(x, y, x.len());
            assert(x =~= y) by {
                assert forall|i: int| 0 <= i < x.len() implies x[i] == y[i] by {
                    assert(x[x.len() - (x.len() - i)] == y[y.len() - (x.len() - i)]);
                }
            }
        },
        _ => {},
    }
}

proof fn list_encoding_is_injective(x: Seq<Item>, y: Seq<Item>, n: nat)
    requires
        x.len() == y.len(),
        n <= x.len(),
        all_proper(x, n),
        all_proper(y, n),
        encoded_from(x, n) == encoded_from(y, n),
    ensures
        forall|k: int| 0 < k <= n ==> #[trigger] x[x.len() - k] == y[y.len() - k],
    decreases x, n,
{
    if n > 0 {
        let i = x.len() - n;
        prefixed_splits(
            encoded(x[i]),
            encoded_from(x, (n - 1) as nat),
            encoded(y[i]),
            encoded_from(y, (n - 1) as nat),
        );
        encoding_is_injective(x[i], y[i]);
        list_encoding_is_injective(x, y, (n - 1) as nat);
    }
}

/// Whether two cells are of one kind and hold the same value. Floats are the same where
/// their bits are.
pub open spec fn same_value(a: Cell, b: Cell) -> bool
    decreases a, 0nat,
{
    match (a, b) {
        (Cell::Null, Cell::Null) => true,
        (Cell::Boolean(x), Cell::Boolean(y)) => x == y,
        (Cell::Int8(x), Cell::Int8(y)) => x == y,
        (Cell::Int16(x), Cell::Int16(y)) => x == y,
        (Cell::Int32(x), Cell::Int32(y)) => x == y,
        (Cell::Int64(x), Cell::Int64(y)) => x == y,
        (Cell::UInt8(x), Cell::UInt8(y)) => x == y,
        (Cell::UInt16(x), Cell::UInt16(y)) => x == y,
        (Cell::UInt32(x), Cell::UInt32(y)) => x == y,
        (Cell::UInt64(x), Cell::UInt64(y)) => x == y,
        (Cell::Float32(x), Cell::Float32(y)) => x == y,
        (Cell::Float64(x), Cell::Float64(y)) => x == y,
        (Cell::Date32(x), Cell::Date32(y)) => x == y,
        (Cell::Date64(x), Cell::Date64(y)) => x == y,
        (Cell::Timestamp(u, x), Cell::Timestamp(v, y)) => u == v && x == y,
        (Cell::Decimal128(x), Cell::Decimal128(y)) => x == y,
        (Cell::Utf8(x), Cell::Utf8(y)) => x@ == y@,
        (Cell::LargeUtf8(x), Cell::LargeUtf8(y)) => x@ == y@,
        (Cell::Utf8View(x), Cell::Utf8View(y)) => x@ == y@,
        (Cell::Binary(x), Cell::Binary(y)) => x@ == y@,
        (Cell::LargeBinary(x), Cell::LargeBinary(y)) => x@ == y@,
        (Cell::BinaryView(x), Cell::BinaryView(y)) => x@ == y@,
        (Cell::List(x), Cell::List(y)) => same_values(x@, y@, x@.len()),
        (Cell::LargeList(x), Cell::LargeList(y)) => same_values(x@, y@, x@.len()),
        (Cell::FixedSizeList(x), Cell::FixedSizeList(y)) => same_values(x@, y@, x@.len()),
        (Cell::Struct(x), Cell::Struct(y)) => same_values(x@, y@, x@.len()),
        (Cell::Entries(x), Cell::Entries(y)) => same_values(x@, y@, x@.len()),
        (Cell::Other, Cell::Other) => true,
        _ => false,
    }
}

/// Whether two lists of cells are of one length and their first `n` cells hold the same
/// values.
pub open spec fn same_values(a: Seq<Cell>, b: Seq<Cell>, n: nat) -> bool
    decreases a, n,
{
    a.len() == b.len() && (n == 0 || n > a.len() || (same_values(a, b, (n - 1) as nat)
        && same_value(a[n - 1], b[n - 1])))
}

/// The encodings see the same in two cells exactly where the cells are of one kind and hold
/// the same value.
#[verifier::rlimit(60)]
pub proof fn items_tell_values_apart(a: Cell, b: Cell)
    ensures
        item_of(a) == item_of(b) <==> same_value(a, b),
    decreases a, 0nat,
{
    spans();
    match (a, b) {
        (Cell::Int8(x), Cell::Int8(y)) => {
            if item_of(a) == item_of(b) {
                twos_tell_apart(x as int, y as int, 1);
            }
        },
        (Cell::Int16(x), Cell::Int16(y)) => {
            if item_of(a) == item_of(b) {
                twos_tell_apart(x as int, y as int, 2);
            }
        },
        (Cell::Int32(x), Cell::Int32(y)) => {
            if item_of(a) == item_of(b) {
                twos_tell_apart(x as int, y as int, 4);
            }
        },
        (Cell::Int64(x), Cell::Int64(y)) => {
            if item_of(a) == item_of(b) {
                twos_tell_apart(x as int, y as int, 8);
            }
        },
        (Cell::Date32(x), Cell::Date32(y)) => {
            if item_of(a) == item_of(b) {
                twos_tell_apart(x as int, y as int, 4);
            }
        },
        (Cell::Date64(x), Cell::Date64(y)) => {
            if item_of(a) == item_of(b) {
                twos_tell_apart(x as int, y as int, 8);
            }
        },
        (Cell::Timestamp(u, x), Cell::Timestamp(v, y)) => {
            if item_of(a) == item_of(b) {
                twos_tell_apart(x as int, y as int, 8);
            }
        },
        (Cell::Decimal128(x), Cell::Decimal128(y)) => {
            if item_of(a) == item_of(b) {
                twos_tell_apart(x as int, y as int, 16);
            }
        },
        (Cell::UInt8(x), Cell::UInt8(y)) => {
            le_round_trip(x as nat, 1);
            le_round_trip(y as nat, 1);
        },
        (Cell::UInt16(x), Cell::UInt16(y)) => {
            le_round_trip(x as nat, 2);
            le_round_trip(y as nat, 2);
        },
        (Cell::UInt32(x), Cell::UInt32(y)) => {
            le_round_trip(x as nat, 4);
            le_round_trip(y as nat, 4);
        },
        (Cell::UInt64(x), Cell::UInt64(y)) => {
            le_round_trip(x as nat, 8);
            le_round_trip(y as nat, 8);
        },
        (Cell::Float32(x), Cell::Float32(y)) => {
            le_round_trip(x as nat, 4);
            le_round_trip(y as nat, 4);
        },
        (Cell::Float64(x), Cell::Float64(y)) => {
            le_round_trip(x as nat, 8);
            le_round_trip(y as nat, 8);
        },
        (Cell::Boolean(x), Cell::Boolean(y)) => {
            let p = seq![if x { 1u8 } else { 0u8 }];
            let q = seq![if y { 1u8 } else { 0u8 }];
            assert(p[0] == q[0] <==> x == y);
        },
        (Cell::Utf8(x), Cell::Utf8(y)) => utf8_injective(x@, y@),
        (Cell::LargeUtf8(x), Cell::LargeUtf8(y)) => utf8_injective(x@, y@),
        (Cell::Utf8View(x), Cell::Utf8View(y)) => utf8_injective(x@, y@),
        (Cell::List(x), Cell::List(y)) => lists_tell_values_apart(x@, y@, x@.len()),
        (Cell::LargeList(x), Cell::LargeList(y)) => lists_tell_values_apart(x@, y@, x@.len()),
        (Cell::FixedSizeList(x), Cell::FixedSizeList(y)) => {
            lists_tell_values_apart(x@, y@, x@.len())
        },
        (Cell::Struct(x), Cell::Struct(y)) => lists_tell_values_apart(x@, y@, x@.len()),
        (Cell::Entries(x), Cell::Entries(y)) => lists_tell_values_apart(x@, y@, x@.len()),
        _ => {},
    }
}

proof fn lists_tell_values_apart(a: Seq<Cell>, b: Seq<Cell>, n: nat)
    requires
        n <= a.len(),
    ensures
        a.len() == b.len() ==> (items_of(a, n) == items_of(b, n) <==> same_values(a, b, n)),
        items_of(a, a.len()) == items_of(b, b.len()) ==> a.len() == b.len(),
    decreases a, n,
{
    items_of_each(a, a.len());
    items_of_each(b, b.len());
    if n > 0 && a.len() == b.len() {
        lists_tell_values_apart(a, b, (n - 1) as nat);
        items_tell_values_apart(a[n - 1], b[n - 1]);
        let (x, y) = (items_of(a, (n - 1) as nat), items_of(b, (n - 1) as nat));
        let (p, q) = (item_of(a[n - 1]), item_of(b[n - 1]));
        if x.push(p) == y.push(q) {
            items_of_each(a, (n - 1) as nat);
            items_of_each(b, (n - 1) as nat);
            assert(x.push(p).drop_last() =~= x);
            assert(y.push(q).drop_last() =~= y);
            assert(x.push(p).last() == p);
            assert(y.push(q).last() == q);
        }
    }
}

} // verus!
