//! Datasets that differ are fingerprinted from bytes that differ.

use crate::bytes::{le, le_len, le_round_trip, prefixed, span, spans, twos, twos_tell_apart};
use crate::digest::blake3_digest;
use crate::encoding::{
    encoded, encoding_is_injective, item_of, prefixed_splits, proper, tag_of, Item,
};
use crate::fingerprint::{
    all_rows, body_v1, body_v1_ignores_batch_boundaries, cell_v1, cell_v2, cells_v2, column_digests,
    column_of, column_v2, field_v2, fields_v1, fields_v2, header_v1, lookup, metadata_v2,
    optional_bytes, plain_tag, root_v2, row_total, row_v1, schema_v2, streams_v2, type_v2, unit_tag,
};
use crate::text::{opt_text, utf8, utf8_injective};
use crate::value::{Batch, DataType, Field, Schema, TimeUnit};
use vstd::prelude::*;
use vstd::string::*;
use vstd::utf8::is_ascii_chars_encode_utf8;

verus! {

/// Whether an item has an encoding whose length fits in eight bytes.
pub open spec fn sized(item: Item) -> bool {
    proper(item) && encoded(item).len() < span(8)
}

/// Whether every row has so many cells, each with an encoding.
pub open spec fn regular(rows: Seq<Seq<Item>>, width: nat) -> bool {
    forall|r: int|
        0 <= r < rows.len() ==> (#[trigger] rows[r]).len() == width && forall|c: int|
            0 <= c < width ==> sized(#[trigger] rows[r][c])
}

proof fn cell_v1_splits(column: nat, a: Item, x: Seq<u8>, b: Item, y: Seq<u8>)
    requires
        sized(a),
        sized(b),
        cell_v1(column, a) + x == cell_v1(column, b) + y,
    ensures
        a == b,
        x == y,
{
    let head = utf8("pf-cell-v1\0"@) + le(column, 8);
    let l = cell_v1(column, a) + x;
    let r = cell_v1(column, b) + y;
    assert(l.skip(head.len() as int) =~= prefixed(encoded(a)) + x);
    assert(r.skip(head.len() as int) =~= prefixed(encoded(b)) + y);
    prefixed_splits(encoded(a), x, encoded(b), y);
    encoding_is_injective(a, b);
}

proof fn row_v1_splits(a: Seq<Item>, x: Seq<u8>, b: Seq<Item>, y: Seq<u8>, n: nat)
    requires
        n <= a.len(),
        n <= b.len(),
        forall|c: int| 0 <= c < n ==> sized(#[trigger] a[c]),
        forall|c: int| 0 <= c < n ==> sized(#[trigger] b[c]),
        row_v1(a, n) + x == row_v1(b, n) + y,
    ensures
        forall|c: int| 0 <= c < n ==> #[trigger] a[c] == b[c],
        x == y,
    decreases n,
{
    if n == 0 {
        assert(row_v1(a, n) + x =~= x);
        assert(row_v1(b, n) + y =~= y);
    } else {
        let m = (n - 1) as nat;
        let p = cell_v1(m, a[n - 1]) + x;
        let q = cell_v1(m, b[n - 1]) + y;
        assert(row_v1(a, n) + x =~= row_v1(a, m) + p);
        assert(row_v1(b, n) + y =~= row_v1(b, m) + q);
        row_v1_splits(a, p, b, q, m);
        cell_v1_splits(m, a[n - 1], x, b[n - 1], y);
    }
}

proof fn body_v1_splits(
    a: Seq<Seq<Item>>,
    x: Seq<u8>,
    b: Seq<Seq<Item>>,
    y: Seq<u8>,
    width: nat,
)
    requires
        regular(a, width),
        regular(b, width),
        a.len() == b.len(),
        body_v1(a) + x == body_v1(b) + y,
    ensures
        a == b,
        x == y,
    decreases a.len(),
{
    if a.len() == 0 {
        assert(body_v1(a) + x =~= x);
        assert(body_v1(b) + y =~= y);
        assert(a =~= b);
    } else {
        let n = a.len() - 1;
        let p = row_v1(a.last(), width) + x;
        let q = row_v1(b.last(), width) + y;
        assert(a[n].len() == width && b[n].len() == width);
        assert(body_v1(a) + x =~= body_v1(a.drop_last()) + p);
        assert(body_v1(b) + y =~= body_v1(b.drop_last()) + q);
        assert forall|r: int| 0 <= r < n implies (#[trigger] a.drop_last()[r]).len() == width
            && forall|c: int| 0 <= c < width ==> sized(#[trigger] a.drop_last()[r][c]) by {
            assert(a[r].len() == width);
        }
        assert forall|r: int| 0 <= r < n implies (#[trigger] b.drop_last()[r]).len() == width
            && forall|c: int| 0 <= c < width ==> sized(#[trigger] b.drop_last()[r][c]) by {
            assert(b[r].len() == width);
        }
        body_v1_splits(a.drop_last(), p, b.drop_last(), q, width);
        row_v1_splits(a[n], x, b[n], y, width);
        assert(a[n] =~= b[n]);
        assert(a =~= a.drop_last().push(a[n]));
        assert(b =~= b.drop_last().push(b[n]));
    }
}

/// A dataset with rows has bytes, where it has columns.
proof fn rows_have_bytes(rows: Seq<Seq<Item>>, width: nat)
    requires
        regular(rows, width),
        width > 0,
        rows.len() > 0,
    ensures
        body_v1(rows).len() > 0,
{
    let last = rows.last();
    assert(rows[rows.len() - 1].len() == width);
    let c = cell_v1((width - 1) as nat, last[width - 1]);
    crate::bytes::le_len((width - 1) as nat, 8);
    assert(c.len() > 0);
    assert(row_v1(last, width).len() >= c.len());
}

proof fn same_number_of_rows(a: Seq<Seq<Item>>, b: Seq<Seq<Item>>, width: nat)
    requires
        regular(a, width),
        regular(b, width),
        width > 0,
        a.len() <= b.len(),
        body_v1(a) == body_v1(b),
    ensures
        a == b,
{
    let head = b.take(a.len() as int);
    let tail = b.skip(a.len() as int);
    assert(head + tail =~= b);
    body_v1_ignores_batch_boundaries(head, tail);
    assert(body_v1(a) + Seq::<u8>::empty() =~= body_v1(head) + body_v1(tail));
    assert forall|r: int| 0 <= r < head.len() implies (#[trigger] head[r]).len() == width
        && forall|c: int| 0 <= c < width ==> sized(#[trigger] head[r][c]) by {
        assert(b[r].len() == width);
    }
    body_v1_splits(a, Seq::empty(), head, body_v1(tail), width);
    if tail.len() > 0 {
        assert forall|r: int| 0 <= r < tail.len() implies (#[trigger] tail[r]).len() == width
            && forall|c: int| 0 <= c < width ==> sized(#[trigger] tail[r][c]) by {
            assert(b[r + a.len()].len() == width);
        }
        rows_have_bytes(tail, width);
    }
    assert(head =~= b);
}

/// Two datasets with the same columns have the same bytes in version 1 exactly where they
/// have the same rows. A dataset without columns has no bytes for its rows.
pub proof fn fingerprint_v1_tracks_data_changes(
    schema: Schema,
    a: Seq<Seq<Item>>,
    b: Seq<Seq<Item>>,
)
    requires
        schema.fields@.len() > 0,
        regular(a, schema.fields@.len()),
        regular(b, schema.fields@.len()),
    ensures
        header_v1(schema) + body_v1(a) == header_v1(schema) + body_v1(b) <==> a == b,
{
    let head = header_v1(schema);
    if head + body_v1(a) == head + body_v1(b) {
        assert((head + body_v1(a)).skip(head.len() as int) =~= body_v1(a));
        assert((head + body_v1(b)).skip(head.len() as int) =~= body_v1(b));
        if a.len() <= b.len() {
            same_number_of_rows(a, b, schema.fields@.len());
        } else {
            same_number_of_rows(b, a, schema.fields@.len());
        }
    }
}

/// Whether an item is null or of one kind.
pub open spec fn of_kind(item: Item, tag: u8) -> bool {
    sized(item) && (item is Null || tag_of(item) == tag)
}

proof fn cell_v2_splits(a: Item, x: Seq<u8>, b: Item, y: Seq<u8>, tag: u8)
    requires
        of_kind(a, tag),
        of_kind(b, tag),
        cell_v2(a) + x == cell_v2(b) + y,
    ensures
        a == b,
        x == y,
{
    let l = cell_v2(a) + x;
    let r = cell_v2(b) + y;
    assert(l[0] == cell_v2(a)[0]);
    assert(r[0] == cell_v2(b)[0]);
    match (a, b) {
        (Item::Null, Item::Null) => {
            assert(l.skip(1) =~= x);
            assert(r.skip(1) =~= y);
        },
        (Item::Scalar(t, p), Item::Scalar(u, q)) => {
            assert(l.subrange(1, 1 + p.len() as int) =~= p);
            assert(r.subrange(1, 1 + q.len() as int) =~= q);
            assert(l.skip(1 + p.len() as int) =~= x);
            assert(r.skip(1 + q.len() as int) =~= y);
        },
        (Item::Bytes(t, p), Item::Bytes(u, q)) => {
            assert(l.skip(1) =~= prefixed(p) + x);
            assert(r.skip(1) =~= prefixed(q) + y);
            prefixed_splits(p, x, q, y);
        },
        (Item::Nested(t, p), Item::Nested(u, q)) => {
            assert(l.skip(1) =~= prefixed(encoded(a)) + x);
            assert(r.skip(1) =~= prefixed(encoded(b)) + y);
            prefixed_splits(encoded(a), x, encoded(b), y);
            encoding_is_injective(a, b);
        },
        _ => {
            assert(false);
        },
    }
}

proof fn cells_v2_split(a: Seq<Item>, x: Seq<u8>, b: Seq<Item>, y: Seq<u8>, tag: u8)
    requires
        a.len() == b.len(),
        forall|i: int| 0 <= i < a.len() ==> of_kind(#[trigger] a[i], tag),
        forall|i: int| 0 <= i < b.len() ==> of_kind(#[trigger] b[i], tag),
        cells_v2(a) + x == cells_v2(b) + y,
    ensures
        a == b,
        x == y,
    decreases a.len(),
{
    if a.len() == 0 {
        assert(cells_v2(a) + x =~= x);
        assert(cells_v2(b) + y =~= y);
        assert(a =~= b);
    } else {
        let p = cell_v2(a.last()) + x;
        let q = cell_v2(b.last()) + y;
        assert(cells_v2(a) + x =~= cells_v2(a.drop_last()) + p);
        assert(cells_v2(b) + y =~= cells_v2(b.drop_last()) + q);
        cells_v2_split(a.drop_last(), p, b.drop_last(), q, tag);
        cell_v2_splits(a.last(), x, b.last(), y, tag);
        assert(a =~= a.drop_last().push(a.last()));
        assert(b =~= b.drop_last().push(b.last()));
    }
}

/// Two columns of one type and length have the same bytes in version 2 exactly where they
/// have the same values. The number of rows stands in the root of the fingerprint.
pub proof fn fingerprint_v2_tracks_column_changes(a: Seq<Item>, b: Seq<Item>, tag: u8)
    requires
        a.len() == b.len(),
        forall|i: int| 0 <= i < a.len() ==> of_kind(#[trigger] a[i], tag),
        forall|i: int| 0 <= i < b.len() ==> of_kind(#[trigger] b[i], tag),
    ensures
        cells_v2(a) == cells_v2(b) <==> a == b,
{
    if cells_v2(a) == cells_v2(b) {
        assert(cells_v2(a) + Seq::<u8>::empty() =~= cells_v2(b) + Seq::<u8>::empty());
        cells_v2_split(a, Seq::empty(), b, Seq::empty(), tag);
    }
}

/// Datasets that differ and have the same fingerprint of version 1 are a collision of the
/// digest.
pub proof fn equal_fingerprints_need_a_collision(
    schema: Schema,
    a: Seq<Seq<Item>>,
    b: Seq<Seq<Item>>,
)
    requires
        schema.fields@.len() > 0,
        regular(a, schema.fields@.len()),
        regular(b, schema.fields@.len()),
        a != b,
        blake3_digest(header_v1(schema) + body_v1(a)) == blake3_digest(
            header_v1(schema) + body_v1(b),
        ),
    ensures
        exists|x: Seq<u8>, y: Seq<u8>|
            x != y && #[trigger] blake3_digest(x) == #[trigger] blake3_digest(y),
{
    fingerprint_v1_tracks_data_changes(schema, a, b);
}

/// Whether the digests of streams have thirty-two bytes, as those of BLAKE3 have.
pub open spec fn digests_sized(streams: Seq<Seq<u8>>) -> bool {
    forall|c: int| 0 <= c < streams.len() ==> blake3_digest(#[trigger] streams[c]).len() == 32
}

proof fn column_digests_split(
    a: Seq<Seq<u8>>,
    x: Seq<u8>,
    b: Seq<Seq<u8>>,
    y: Seq<u8>,
    n: nat,
)
    requires
        n <= a.len(),
        n <= b.len(),
        digests_sized(a),
        digests_sized(b),
        column_digests(a, n) + x == column_digests(b, n) + y,
    ensures
        forall|c: int|
            0 <= c < n ==> #[trigger] blake3_digest(a[c]) == blake3_digest(b[c]),
        x == y,
    decreases n,
{
    if n == 0 {
        assert(column_digests(a, n) + x =~= x);
        assert(column_digests(b, n) + y =~= y);
    } else {
        let m = (n - 1) as nat;
        let number = le(m, 8);
        let (d, e) = (blake3_digest(a[n - 1]), blake3_digest(b[n - 1]));
        let p = number + d + x;
        let q = number + e + y;
        le_len(m, 8);
        assert(column_digests(a, n) + x =~= column_digests(a, m) + p);
        assert(column_digests(b, n) + y =~= column_digests(b, m) + q);
        column_digests_split(a, p, b, q, m);
        assert(p.subrange(8, 40) =~= d);
        assert(q.subrange(8, 40) =~= e);
        assert(p.skip(40) =~= x);
        assert(q.skip(40) =~= y);
    }
}

/// The bytes of a dataset in version 2 hold the digest of its schema, the number of its rows and
/// columns, and the digest of every column: datasets with the same bytes have the same of each.
pub proof fn roots_v2_hold_every_column(
    schema_a: Seq<u8>,
    schema_b: Seq<u8>,
    rows_a: nat,
    rows_b: nat,
    a: Seq<Seq<u8>>,
    b: Seq<Seq<u8>>,
)
    requires
        schema_a.len() == 32,
        schema_b.len() == 32,
        rows_a < span(8),
        rows_b < span(8),
        a.len() < span(8),
        b.len() < span(8),
        digests_sized(a),
        digests_sized(b),
        root_v2(schema_a, rows_a, a) == root_v2(schema_b, rows_b, b),
    ensures
        schema_a == schema_b,
        rows_a == rows_b,
        a.len() == b.len(),
        forall|c: int|
            0 <= c < a.len() ==> #[trigger] blake3_digest(a[c]) == blake3_digest(b[c]),
{
    let head = utf8("pf-fp-v2\0"@);
    let n = head.len() as int;
    let l = root_v2(schema_a, rows_a, a);
    let r = root_v2(schema_b, rows_b, b);
    le_round_trip(rows_a, 8);
    le_round_trip(rows_b, 8);
    le_round_trip(a.len(), 8);
    le_round_trip(b.len(), 8);
    assert(l.subrange(n, n + 32) =~= schema_a);
    assert(r.subrange(n, n + 32) =~= schema_b);
    assert(l.subrange(n + 32, n + 40) =~= le(rows_a, 8));
    assert(r.subrange(n + 32, n + 40) =~= le(rows_b, 8));
    assert(l.subrange(n + 40, n + 48) =~= le(a.len(), 8));
    assert(r.subrange(n + 40, n + 48) =~= le(b.len(), 8));
    let none = Seq::<u8>::empty();
    assert(l.skip(n + 48) =~= column_digests(a, a.len()) + none);
    assert(r.skip(n + 48) =~= column_digests(b, b.len()) + none);
    column_digests_split(a, none, b, none, a.len());
}

/// Whether every column of a dataset holds nulls and values of one kind, each with an encoding.
pub open spec fn of_kinds(rows: Seq<Seq<Item>>, tags: Seq<u8>) -> bool {
    forall|r: int, c: int|
        #![trigger rows[r][c]]
        0 <= r < rows.len() && 0 <= c < tags.len() ==> rows[r].len() == tags.len() && of_kind(
            rows[r][c],
            tags[c],
        )
}

/// Datasets of one schema that differ in any cell, or in their number of rows, and have the same
/// fingerprint of version 2 are a collision of the digest.
pub proof fn equal_fingerprints_v2_need_a_collision(
    schema_digest: Seq<u8>,
    tags: Seq<u8>,
    a: Seq<Seq<Item>>,
    b: Seq<Seq<Item>>,
)
    requires
        schema_digest.len() == 32,
        a.len() < span(8),
        b.len() < span(8),
        tags.len() < span(8),
        of_kinds(a, tags),
        of_kinds(b, tags),
        digests_sized(streams_v2(tags.len(), a)),
        digests_sized(streams_v2(tags.len(), b)),
        blake3_digest(root_v2(schema_digest, a.len(), streams_v2(tags.len(), a)))
            == blake3_digest(root_v2(schema_digest, b.len(), streams_v2(tags.len(), b))),
        a.len() != b.len() || exists|r: int, c: int|
            #![trigger a[r][c]]
            0 <= r < a.len() && 0 <= c < tags.len() && a[r][c] != b[r][c],
    ensures
        exists|x: Seq<u8>, y: Seq<u8>|
            x != y && #[trigger] blake3_digest(x) == #[trigger] blake3_digest(y),
{
    let (s, t) = (streams_v2(tags.len(), a), streams_v2(tags.len(), b));
    let (x, y) = (root_v2(schema_digest, a.len(), s), root_v2(schema_digest, b.len(), t));
    if x == y {
        roots_v2_hold_every_column(schema_digest, schema_digest, a.len(), b.len(), s, t);
        let (r, c) = choose|r: int, c: int|
            #![trigger a[r][c]]
            0 <= r < a.len() && 0 <= c < tags.len() && a[r][c] != b[r][c];
        let (p, q) = (column_of(a, c), column_of(b, c));
        assert(blake3_digest(s[c]) == blake3_digest(t[c]));
        assert(p[r] == a[r][c] && q[r] == b[r][c]);
        if s[c] == t[c] {
            let head = utf8("pf-fp-v2-column\0"@) + le(c as nat, 8);
            assert(s[c].skip(head.len() as int) =~= cells_v2(p));
            assert(t[c].skip(head.len() as int) =~= cells_v2(q));
            assert forall|i: int| 0 <= i < p.len() implies of_kind(#[trigger] p[i], tags[c]) by {
                assert(of_kind(a[i][c], tags[c]));
            }
            assert forall|i: int| 0 <= i < q.len() implies of_kind(#[trigger] q[i], tags[c]) by {
                assert(of_kind(b[i][c], tags[c]));
            }
            fingerprint_v2_tracks_column_changes(p, q, tags[c]);
        }
    }
}

/// Whether two schemas have the same columns as version 1 sees them: names, types as they are
/// shown, and whether nulls may stand in them.
pub open spec fn same_columns(a: Seq<Field>, b: Seq<Field>) -> bool {
    &&& a.len() == b.len()
    &&& forall|i: int|
        #![trigger a[i]]
        0 <= i < a.len() ==> a[i].name@ == b[i].name@ && a[i].type_text@ == b[i].type_text@
            && a[i].nullable == b[i].nullable
}

/// Whether the names and types of columns have lengths that fit in eight bytes.
pub open spec fn short_columns(fields: Seq<Field>) -> bool {
    forall|i: int|
        #![trigger fields[i]]
        0 <= i < fields.len() ==> utf8(fields[i].name@).len() < span(8) && utf8(
            fields[i].type_text@,
        ).len() < span(8)
}

/// Equal bytes behind leads of one length have equal leads and are equal behind them.
proof fn leads_split(a: Seq<u8>, m: Seq<u8>, x: Seq<u8>, b: Seq<u8>, n: Seq<u8>, y: Seq<u8>)
    requires
        a.len() == b.len(),
        (a + m) + x == (b + n) + y,
    ensures
        a == b,
        m + x == n + y,
{
    let k = a.len() as int;
    let l = (a + m) + x;
    let r = (b + n) + y;
    assert(l.take(k) =~= a);
    assert(r.take(k) =~= b);
    assert(l.skip(k) =~= m + x);
    assert(r.skip(k) =~= n + y);
}

proof fn three_behind(a: Seq<u8>, b: Seq<u8>, c: Seq<u8>, d: Seq<u8>, x: Seq<u8>)
    ensures
        ((a + b) + c) + d + x == (a + (b + (c + d))) + x,
        (b + (c + d)) + x == b + (c + (d + x)),
{
    assert(((a + b) + c) + d + x =~= (a + (b + (c + d))) + x);
    assert((b + (c + d)) + x =~= b + (c + (d + x)));
}

spec fn flag(nullable: bool) -> u8 {
    if nullable {
        1u8
    } else {
        0u8
    }
}

spec fn column_v1(field: Field) -> Seq<u8> {
    ((utf8("pf-schema-field-v1\0"@) + prefixed(utf8(field.name@))) + prefixed(
        utf8(field.type_text@),
    )) + seq![flag(field.nullable)]
}

proof fn column_v1_splits(f: Field, x: Seq<u8>, g: Field, y: Seq<u8>)
    requires
        utf8(f.name@).len() < span(8),
        utf8(f.type_text@).len() < span(8),
        utf8(g.name@).len() < span(8),
        utf8(g.type_text@).len() < span(8),
        column_v1(f) + x == column_v1(g) + y,
    ensures
        f.name@ == g.name@,
        f.type_text@ == g.type_text@,
        f.nullable == g.nullable,
        x == y,
{
    let head = utf8("pf-schema-field-v1\0"@);
    let (b, c, d) = (prefixed(utf8(f.name@)), prefixed(utf8(f.type_text@)), seq![flag(f.nullable)]);
    let (p, q, r) = (prefixed(utf8(g.name@)), prefixed(utf8(g.type_text@)), seq![flag(g.nullable)]);
    three_behind(head, b, c, d, x);
    three_behind(head, p, q, r, y);
    leads_split(head, b + (c + d), x, head, p + (q + r), y);
    prefixed_splits(utf8(f.name@), c + (d + x), utf8(g.name@), q + (r + y));
    prefixed_splits(utf8(f.type_text@), d + x, utf8(g.type_text@), r + y);
    utf8_injective(f.name@, g.name@);
    utf8_injective(f.type_text@, g.type_text@);
    assert((d + x)[0] == flag(f.nullable));
    assert((r + y)[0] == flag(g.nullable));
    assert((d + x).skip(1) =~= x);
    assert((r + y).skip(1) =~= y);
}

proof fn one_more_field(a: Seq<Field>, n: nat, x: Seq<u8>)
    requires
        0 < n <= a.len(),
    ensures
        fields_v1(a, n) + x == fields_v1(a, (n - 1) as nat) + (column_v1(a[n - 1]) + x),
        fields_v1(a, n) == fields_v1(a, (n - 1) as nat) + column_v1(a[n - 1]),
{
    let m = (n - 1) as nat;
    assert(fields_v1(a, n) =~= fields_v1(a, m) + column_v1(a[n - 1]));
    assert((fields_v1(a, m) + column_v1(a[n - 1])) + x =~= fields_v1(a, m) + (column_v1(a[n - 1])
        + x));
}

proof fn fields_v1_split(a: Seq<Field>, x: Seq<u8>, b: Seq<Field>, y: Seq<u8>, n: nat)
    requires
        n <= a.len(),
        n <= b.len(),
        short_columns(a),
        short_columns(b),
        fields_v1(a, n) + x == fields_v1(b, n) + y,
    ensures
        forall|i: int|
            #![trigger a[i]]
            0 <= i < n ==> a[i].name@ == b[i].name@ && a[i].type_text@ == b[i].type_text@
                && a[i].nullable == b[i].nullable,
        x == y,
    decreases n,
{
    if n == 0 {
        assert(fields_v1(a, n) + x =~= x);
        assert(fields_v1(b, n) + y =~= y);
    } else {
        let m = (n - 1) as nat;
        one_more_field(a, n, x);
        one_more_field(b, n, y);
        fields_v1_split(a, column_v1(a[n - 1]) + x, b, column_v1(b[n - 1]) + y, m);
        assert(a[n - 1] == a[n - 1] && b[n - 1] == b[n - 1]);
        column_v1_splits(a[n - 1], x, b[n - 1], y);
    }
}

proof fn more_fields(a: Seq<Field>, m: nat, n: nat) -> (tail: Seq<u8>)
    requires
        m < n <= a.len(),
    ensures
        fields_v1(a, n) == fields_v1(a, m) + (utf8("pf-schema-field-v1\0"@) + tail),
    decreases n,
{
    let head = utf8("pf-schema-field-v1\0"@);
    let f = a[n - 1];
    let none = Seq::<u8>::empty();
    one_more_field(a, n, none);
    if m == n - 1 {
        let (b, c, d) = (prefixed(utf8(f.name@)), prefixed(utf8(f.type_text@)), seq![
            flag(f.nullable),
        ]);
        three_behind(head, b, c, d, none);
        assert(column_v1(f) =~= column_v1(f) + none);
        assert((head + (b + (c + d))) + none =~= head + (b + (c + d)));
        b + (c + d)
    } else {
        let tail = more_fields(a, m, (n - 1) as nat);
        let more = tail + column_v1(f);
        assert((fields_v1(a, m) + (head + tail)) + column_v1(f) =~= fields_v1(a, m) + (head + more));
        more
    }
}

proof fn domains_differ()
    ensures
        utf8("pf-schema-field-v1\0"@).len() > 3,
        utf8("pf-fp-body-v1\0"@).len() > 3,
        utf8("pf-schema-field-v1\0"@)[3] != utf8("pf-fp-body-v1\0"@)[3],
{
    reveal_strlit("pf-schema-field-v1\0");
    reveal_strlit("pf-fp-body-v1\0");
    is_ascii_chars_encode_utf8("pf-schema-field-v1\0"@);
    is_ascii_chars_encode_utf8("pf-fp-body-v1\0"@);
}

/// Datasets whose columns differ, in number, name, type or nullability, have different bytes in
/// version 1, whatever their rows.
pub proof fn fingerprint_v1_tracks_schema_changes(
    one: Schema,
    other: Schema,
    a: Seq<Seq<Item>>,
    b: Seq<Seq<Item>>,
)
    requires
        short_columns(one.fields@),
        short_columns(other.fields@),
        header_v1(one) + body_v1(a) == header_v1(other) + body_v1(b),
    ensures
        same_columns(one.fields@, other.fields@),
{
    if one.fields@.len() <= other.fields@.len() {
        schema_tracked(one, other, body_v1(a), body_v1(b));
    } else {
        schema_tracked(other, one, body_v1(b), body_v1(a));
    }
}

proof fn schema_tracked(one: Schema, other: Schema, a: Seq<u8>, b: Seq<u8>)
    requires
        short_columns(one.fields@),
        short_columns(other.fields@),
        one.fields@.len() <= other.fields@.len(),
        header_v1(one) + a == header_v1(other) + b,
    ensures
        same_columns(one.fields@, other.fields@),
{
    let head = utf8("pf-fp-v1\0"@);
    let body = utf8("pf-fp-body-v1\0"@);
    let (f, g) = (one.fields@, other.fields@);
    let m = f.len();
    let l = header_v1(one) + a;
    let r = header_v1(other) + b;
    domains_differ();
    assert(l.skip(head.len() as int) =~= fields_v1(f, m) + (body + a));
    assert(r.skip(head.len() as int) =~= fields_v1(g, g.len()) + (body + b));
    if m < g.len() {
        let tail = more_fields(g, m, g.len());
        let field = utf8("pf-schema-field-v1\0"@);
        let rest = field + tail + (body + b);
        assert(fields_v1(g, g.len()) + (body + b) =~= fields_v1(g, m) + rest);
        fields_v1_split(f, body + a, g, rest, m);
        assert((body + a)[3] == body[3]);
        assert(rest[3] == field[3]);
    } else {
        fields_v1_split(f, body + a, g, body + b, m);
    }
}

/// Whether two types are the same, with the fields nested in them.
pub open spec fn same_type(a: DataType, b: DataType, keys: Seq<Seq<char>>) -> bool
    decreases a, 0nat,
{
    match (a, b) {
        (DataType::Null, DataType::Null) => true,
        (DataType::Boolean, DataType::Boolean) => true,
        (DataType::Int8, DataType::Int8) => true,
        (DataType::Int16, DataType::Int16) => true,
        (DataType::Int32, DataType::Int32) => true,
        (DataType::Int64, DataType::Int64) => true,
        (DataType::UInt8, DataType::UInt8) => true,
        (DataType::UInt16, DataType::UInt16) => true,
        (DataType::UInt32, DataType::UInt32) => true,
        (DataType::UInt64, DataType::UInt64) => true,
        (DataType::Float32, DataType::Float32) => true,
        (DataType::Float64, DataType::Float64) => true,
        (DataType::Date32, DataType::Date32) => true,
        (DataType::Date64, DataType::Date64) => true,
        (DataType::Timestamp(u, x), DataType::Timestamp(v, y)) => u == v && opt_text(x) == opt_text(
            y,
        ),
        (DataType::Decimal128(p, s), DataType::Decimal128(q, t)) => p == q && s == t,
        (DataType::Utf8, DataType::Utf8) => true,
        (DataType::LargeUtf8, DataType::LargeUtf8) => true,
        (DataType::Utf8View, DataType::Utf8View) => true,
        (DataType::Binary, DataType::Binary) => true,
        (DataType::LargeBinary, DataType::LargeBinary) => true,
        (DataType::BinaryView, DataType::BinaryView) => true,
        (DataType::List(f), DataType::List(g)) => same_field(*f, *g, keys),
        (DataType::LargeList(f), DataType::LargeList(g)) => same_field(*f, *g, keys),
        (DataType::FixedSizeList(f, n), DataType::FixedSizeList(g, m)) => n == m && same_field(
            *f,
            *g,
            keys,
        ),
        (DataType::Struct(f), DataType::Struct(g)) => same_fields(f@, g@, f@.len(), keys),
        (DataType::Entries(f, s), DataType::Entries(g, t)) => s == t && same_field(*f, *g, keys),
        _ => false,
    }
}

/// Whether two fields have the same name, type and nullability, and the same values under the
/// metadata keys that are covered.
pub open spec fn same_field(a: Field, b: Field, keys: Seq<Seq<char>>) -> bool
    decreases a, 0nat,
{
    &&& a.name@ == b.name@
    &&& a.nullable == b.nullable
    &&& same_metadata(a.metadata@, b.metadata@, keys)
    &&& same_type(a.data_type, b.data_type, keys)
}

/// Whether the first `n` fields of two lists of one length are the same.
pub open spec fn same_fields(a: Seq<Field>, b: Seq<Field>, n: nat, keys: Seq<Seq<char>>) -> bool
    decreases a, n,
{
    a.len() == b.len() && (n == 0 || n > a.len() || (same_fields(a, b, (n - 1) as nat, keys)
        && same_field(a[n - 1], b[n - 1], keys)))
}

/// Whether two lists of metadata have the same values under keys.
pub open spec fn same_metadata(
    a: Seq<(String, String)>,
    b: Seq<(String, String)>,
    keys: Seq<Seq<char>>,
) -> bool {
    forall|i: int| 0 <= i < keys.len() ==> lookup(a, #[trigger] keys[i]) == lookup(b, keys[i])
}

/// Whether texts have lengths that fit in eight bytes.
pub open spec fn short_texts(texts: Seq<Seq<char>>) -> bool {
    texts.len() < span(8) && forall|i: int|
        0 <= i < texts.len() ==> utf8(#[trigger] texts[i]).len() < span(8)
}

/// Whether metadata has values under keys whose lengths fit in eight bytes.
pub open spec fn short_metadata(metadata: Seq<(String, String)>, keys: Seq<Seq<char>>) -> bool {
    forall|i: int|
        0 <= i < keys.len() ==> (lookup(metadata, #[trigger] keys[i]) matches Some(v) ==> utf8(
            v,
        ).len() < span(8))
}

/// Whether the lengths in a type fit in eight bytes.
pub open spec fn short_type(a: DataType, keys: Seq<Seq<char>>) -> bool
    decreases a, 0nat,
{
    match a {
        DataType::Timestamp(_, zone) => opt_text(zone) matches Some(z) ==> utf8(z).len() < span(8),
        DataType::List(f) => short_field(*f, keys),
        DataType::LargeList(f) => short_field(*f, keys),
        DataType::FixedSizeList(f, _) => short_field(*f, keys),
        DataType::Struct(f) => f@.len() < span(8) && short_fields(f@, f@.len(), keys),
        DataType::Entries(f, _) => short_field(*f, keys),
        _ => true,
    }
}

/// Whether the lengths in a field fit in eight bytes.
pub open spec fn short_field(a: Field, keys: Seq<Seq<char>>) -> bool
    decreases a, 0nat,
{
    &&& utf8(a.name@).len() < span(8)
    &&& short_metadata(a.metadata@, keys)
    &&& short_type(a.data_type, keys)
}

/// Whether the lengths in the first `n` fields of a list fit in eight bytes.
pub open spec fn short_fields(a: Seq<Field>, n: nat, keys: Seq<Seq<char>>) -> bool
    decreases a, n,
{
    n == 0 || n > a.len() || (short_fields(a, (n - 1) as nat, keys) && short_field(a[n - 1], keys))
}

proof fn optional_splits(a: Option<Seq<char>>, x: Seq<u8>, b: Option<Seq<char>>, y: Seq<u8>)
    requires
        a matches Some(v) ==> utf8(v).len() < span(8),
        b matches Some(v) ==> utf8(v).len() < span(8),
        optional_bytes(a) + x == optional_bytes(b) + y,
    ensures
        a == b,
        x == y,
{
    let l = optional_bytes(a) + x;
    let r = optional_bytes(b) + y;
    assert(l[0] == optional_bytes(a)[0]);
    assert(r[0] == optional_bytes(b)[0]);
    match (a, b) {
        (Some(v), Some(w)) => {
            assert(l.skip(1) =~= prefixed(utf8(v)) + x);
            assert(r.skip(1) =~= prefixed(utf8(w)) + y);
            prefixed_splits(utf8(v), x, utf8(w), y);
            utf8_injective(v, w);
        },
        (None, None) => {
            assert(l.skip(1) =~= x);
            assert(r.skip(1) =~= y);
        },
        _ => {},
    }
}

proof fn metadata_splits(
    a: Seq<(String, String)>,
    x: Seq<u8>,
    b: Seq<(String, String)>,
    y: Seq<u8>,
    keys: Seq<Seq<char>>,
    n: nat,
)
    requires
        n <= keys.len(),
        short_texts(keys),
        short_metadata(a, keys),
        short_metadata(b, keys),
        metadata_v2(a, keys, n) + x == metadata_v2(b, keys, n) + y,
    ensures
        forall|i: int| 0 <= i < n ==> lookup(a, #[trigger] keys[i]) == lookup(b, keys[i]),
        x == y,
    decreases n,
{
    if n == 0 {
        let head = le(keys.len(), 8);
        assert((head + x).skip(head.len() as int) =~= x);
        assert((head + y).skip(head.len() as int) =~= y);
    } else {
        let m = (n - 1) as nat;
        let key = keys[n - 1];
        let p = optional_bytes(lookup(a, key)) + x;
        let q = optional_bytes(lookup(b, key)) + y;
        let named = prefixed(utf8(key));
        assert(metadata_v2(a, keys, n) + x =~= metadata_v2(a, keys, m) + (named + p));
        assert(metadata_v2(b, keys, n) + y =~= metadata_v2(b, keys, m) + (named + q));
        metadata_splits(a, named + p, b, named + q, keys, m);
        assert((named + p).skip(named.len() as int) =~= p);
        assert((named + q).skip(named.len() as int) =~= q);
        optional_splits(lookup(a, key), x, lookup(b, key), y);
    }
}

#[verifier::spinoff_prover]
proof fn type_splits(
    a: DataType,
    shown_a: Seq<char>,
    x: Seq<u8>,
    b: DataType,
    shown_b: Seq<char>,
    y: Seq<u8>,
    keys: Seq<Seq<char>>,
)
    requires
        short_texts(keys),
        short_type(a, keys),
        short_type(b, keys),
        type_v2(a, shown_a, keys) is Ok,
        type_v2(b, shown_b, keys) is Ok,
        type_v2(a, shown_a, keys)->Ok_0 + x == type_v2(b, shown_b, keys)->Ok_0 + y,
    ensures
        same_type(a, b, keys),
        x == y,
    decreases a, 0nat,
{
    first_tags(a, shown_a, x, b, shown_b, y, keys);
    match (a, b) {
        (DataType::Timestamp(u, p), DataType::Timestamp(v, q)) => {
            instants_split(u, opt_text(p), x, v, opt_text(q), y);
        },
        (DataType::Decimal128(p, c), DataType::Decimal128(q, d)) => {
            decimals_split(p, c, x, q, d, y);
        },
        (DataType::List(f), DataType::List(g)) => {
            let (m, n) = (field_v2(0, *f, keys)->Ok_0, field_v2(0, *g, keys)->Ok_0);
            leads_split(seq![23u8], m, x, seq![23u8], n, y);
            field_splits(0, *f, x, *g, y, keys);
        },
        (DataType::LargeList(f), DataType::LargeList(g)) => {
            let (m, n) = (field_v2(0, *f, keys)->Ok_0, field_v2(0, *g, keys)->Ok_0);
            leads_split(seq![24u8], m, x, seq![24u8], n, y);
            field_splits(0, *f, x, *g, y, keys);
        },
        (DataType::FixedSizeList(f, c), DataType::FixedSizeList(g, d)) => {
            let (m, n) = (field_v2(0, *f, keys)->Ok_0, field_v2(0, *g, keys)->Ok_0);
            lengths_split(c, m, x, d, n, y);
            field_splits(0, *f, x, *g, y, keys);
        },
        (DataType::Struct(f), DataType::Struct(g)) => {
            let m = fields_v2(f@, f@.len(), keys)->Ok_0;
            let n = fields_v2(g@, g@.len(), keys)->Ok_0;
            counts_split(f@.len(), m, x, g@.len(), n, y);
            fields_split(f@, x, g@, y, f@.len(), keys);
        },
        (DataType::Entries(f, c), DataType::Entries(g, d)) => {
            let (m, n) = (field_v2(0, *f, keys)->Ok_0, field_v2(0, *g, keys)->Ok_0);
            let (u, v) = (if c { 1u8 } else { 0u8 }, if d { 1u8 } else { 0u8 });
            leads_split(seq![27u8, u], m, x, seq![27u8, v], n, y);
            assert(seq![27u8, u][1] == seq![27u8, v][1]);
            field_splits(0, *f, x, *g, y, keys);
        },
        _ => plain_splits(a, shown_a, x, b, shown_b, y, keys),
    }
}

proof fn instants_split(
    u: TimeUnit,
    p: Option<Seq<char>>,
    x: Seq<u8>,
    v: TimeUnit,
    q: Option<Seq<char>>,
    y: Seq<u8>,
)
    requires
        p matches Some(z) ==> utf8(z).len() < span(8),
        q matches Some(z) ==> utf8(z).len() < span(8),
        (seq![13u8, unit_tag(u)] + optional_bytes(p)) + x == (seq![13u8, unit_tag(v)]
            + optional_bytes(q)) + y,
    ensures
        u == v,
        p == q,
        x == y,
{
    let (c, d) = (seq![13u8, unit_tag(u)], seq![13u8, unit_tag(v)]);
    leads_split(c, optional_bytes(p), x, d, optional_bytes(q), y);
    assert(c[1] == d[1]);
    optional_splits(p, x, q, y);
}

proof fn decimals_split(p: u8, c: i8, x: Seq<u8>, q: u8, d: i8, y: Seq<u8>)
    requires
        (seq![17u8, p] + le(twos(c as int), 1)) + x == (seq![17u8, q] + le(twos(d as int), 1)) + y,
    ensures
        p == q,
        c == d,
        x == y,
{
    let none = Seq::<u8>::empty();
    let (u, v) = (le(twos(c as int), 1), le(twos(d as int), 1));
    le_len(twos(c as int), 1);
    le_len(twos(d as int), 1);
    leads_split(seq![17u8, p], u, x, seq![17u8, q], v, y);
    assert(seq![17u8, p][1] == seq![17u8, q][1]);
    assert(u + none =~= u && v + none =~= v);
    leads_split(u, none, x, v, none, y);
    assert(none + x =~= x && none + y =~= y);
    spans();
    twos_tell_apart(c as int, d as int, 1);
}

proof fn lengths_split(c: i32, m: Seq<u8>, x: Seq<u8>, d: i32, n: Seq<u8>, y: Seq<u8>)
    requires
        (seq![25u8] + le(twos(c as int), 4) + m) + x == (seq![25u8] + le(twos(d as int), 4) + n) + y,
    ensures
        c == d,
        m + x == n + y,
{
    let (u, v) = (le(twos(c as int), 4), le(twos(d as int), 4));
    le_len(twos(c as int), 4);
    le_len(twos(d as int), 4);
    leads_split(seq![25u8] + u, m, x, seq![25u8] + v, n, y);
    assert((seq![25u8] + u).skip(1) =~= u);
    assert((seq![25u8] + v).skip(1) =~= v);
    spans();
    twos_tell_apart(c as int, d as int, 4);
}

proof fn counts_split(c: nat, m: Seq<u8>, x: Seq<u8>, d: nat, n: Seq<u8>, y: Seq<u8>)
    requires
        c < span(8),
        d < span(8),
        (seq![26u8] + le(c, 8) + m) + x == (seq![26u8] + le(d, 8) + n) + y,
    ensures
        c == d,
        m + x == n + y,
{
    let (u, v) = (le(c, 8), le(d, 8));
    le_round_trip(c, 8);
    le_round_trip(d, 8);
    leads_split(seq![26u8] + u, m, x, seq![26u8] + v, n, y);
    assert((seq![26u8] + u).skip(1) =~= u);
    assert((seq![26u8] + v).skip(1) =~= v);
}

/// Whether a type has parameters in version 2.
spec fn with_parameters(a: DataType) -> bool {
    match a {
        DataType::Timestamp(_, _) => true,
        DataType::Decimal128(_, _) => true,
        DataType::List(_) => true,
        DataType::LargeList(_) => true,
        DataType::FixedSizeList(_, _) => true,
        DataType::Struct(_) => true,
        DataType::Entries(_, _) => true,
        _ => false,
    }
}

proof fn plain_splits(
    a: DataType,
    shown_a: Seq<char>,
    x: Seq<u8>,
    b: DataType,
    shown_b: Seq<char>,
    y: Seq<u8>,
    keys: Seq<Seq<char>>,
)
    requires
        type_v2(a, shown_a, keys) is Ok,
        type_v2(b, shown_b, keys) is Ok,
        type_v2(a, shown_a, keys)->Ok_0 + x == type_v2(b, shown_b, keys)->Ok_0 + y,
        first_tag(a) == first_tag(b),
        !with_parameters(a),
    ensures
        same_type(a, b, keys),
        x == y,
{
    let tag = first_tag(a);
    assert(plain_tag(a) == Some(tag));
    assert(plain_tag(b) == Some(tag));
    assert(type_v2(a, shown_a, keys)->Ok_0 == seq![tag]);
    assert(type_v2(b, shown_b, keys)->Ok_0 == seq![tag]);
    assert((seq![tag] + x).skip(1) =~= x);
    assert((seq![tag] + y).skip(1) =~= y);
}

/// The first byte of the bytes of a type is its tag.
proof fn first_tags(
    a: DataType,
    shown_a: Seq<char>,
    x: Seq<u8>,
    b: DataType,
    shown_b: Seq<char>,
    y: Seq<u8>,
    keys: Seq<Seq<char>>,
)
    requires
        type_v2(a, shown_a, keys) is Ok,
        type_v2(b, shown_b, keys) is Ok,
        type_v2(a, shown_a, keys)->Ok_0 + x == type_v2(b, shown_b, keys)->Ok_0 + y,
    ensures
        first_tag(a) == first_tag(b),
        with_parameters(a) <==> with_parameters(b),
{
    let s = type_v2(a, shown_a, keys)->Ok_0;
    let t = type_v2(b, shown_b, keys)->Ok_0;
    tag_comes_first(a, shown_a, keys);
    tag_comes_first(b, shown_b, keys);
    assert((s + x)[0] == s[0]);
    assert((t + y)[0] == t[0]);
    tags_of_parameters(a);
    tags_of_parameters(b);
}

proof fn tags_of_parameters(a: DataType)
    ensures
        with_parameters(a) <==> first_tag(a) == 13 || first_tag(a) == 17 || 23 <= first_tag(a) <= 27,
{
}

proof fn tag_comes_first(a: DataType, shown: Seq<char>, keys: Seq<Seq<char>>)
    requires
        type_v2(a, shown, keys) is Ok,
    ensures
        type_v2(a, shown, keys)->Ok_0.len() > 0,
        type_v2(a, shown, keys)->Ok_0[0] == first_tag(a),
{
    let s = type_v2(a, shown, keys)->Ok_0;
    match a {
        DataType::Timestamp(u, p) => {
            assert(s[0] == seq![13u8, unit_tag(u)][0]);
        },
        DataType::Decimal128(p, c) => {
            assert(s[0] == seq![17u8, p][0]);
        },
        DataType::List(f) => {
            assert(s[0] == seq![23u8][0]);
        },
        DataType::LargeList(f) => {
            assert(s[0] == seq![24u8][0]);
        },
        DataType::FixedSizeList(f, c) => {
            assert(s[0] == seq![25u8][0]);
        },
        DataType::Struct(f) => {
            assert(s[0] == seq![26u8][0]);
        },
        DataType::Entries(f, c) => {
            assert(s[0] == 27u8);
        },
        _ => {},
    }
}

spec fn first_tag(a: DataType) -> u8 {
    match a {
        DataType::Timestamp(_, _) => 13,
        DataType::Decimal128(_, _) => 17,
        DataType::List(_) => 23,
        DataType::LargeList(_) => 24,
        DataType::FixedSizeList(_, _) => 25,
        DataType::Struct(_) => 26,
        DataType::Entries(_, _) => 27,
        _ => match plain_tag(a) {
            Some(tag) => tag,
            None => 0,
        },
    }
}

proof fn field_splits(
    ordinal: nat,
    a: Field,
    x: Seq<u8>,
    b: Field,
    y: Seq<u8>,
    keys: Seq<Seq<char>>,
)
    requires
        short_texts(keys),
        short_field(a, keys),
        short_field(b, keys),
        field_v2(ordinal, a, keys) is Ok,
        field_v2(ordinal, b, keys) is Ok,
        field_v2(ordinal, a, keys)->Ok_0 + x == field_v2(ordinal, b, keys)->Ok_0 + y,
    ensures
        same_field(a, b, keys),
        x == y,
    decreases a, 0nat,
{
    let head = utf8("pf-field-v2\0"@) + le(ordinal, 8);
    let s = type_v2(a.data_type, a.type_text@, keys)->Ok_0;
    let t = type_v2(b.data_type, b.type_text@, keys)->Ok_0;
    let (m, n) = (
        metadata_v2(a.metadata@, keys, keys.len()),
        metadata_v2(b.metadata@, keys, keys.len()),
    );
    let (p, q) = (prefixed(utf8(a.name@)), prefixed(utf8(b.name@)));
    let (f, g) = (seq![flag(a.nullable)], seq![flag(b.nullable)]);
    assert(field_v2(ordinal, a, keys)->Ok_0 == (((head + p) + f) + m) + s);
    assert(field_v2(ordinal, b, keys)->Ok_0 == (((head + q) + g) + n) + t);
    four_behind(head, p, f, m, s, x);
    four_behind(head, q, g, n, t, y);
    leads_split(head, p + (f + (m + s)), x, head, q + (g + (n + t)), y);
    prefixed_splits(utf8(a.name@), f + (m + (s + x)), utf8(b.name@), g + (n + (t + y)));
    utf8_injective(a.name@, b.name@);
    assert((f + (m + (s + x)))[0] == flag(a.nullable));
    assert((g + (n + (t + y)))[0] == flag(b.nullable));
    assert((f + (m + (s + x))).skip(1) =~= m + (s + x));
    assert((g + (n + (t + y))).skip(1) =~= n + (t + y));
    metadata_splits(a.metadata@, s + x, b.metadata@, t + y, keys, keys.len());
    type_splits(a.data_type, a.type_text@, x, b.data_type, b.type_text@, y, keys);
}

proof fn four_behind(a: Seq<u8>, b: Seq<u8>, c: Seq<u8>, d: Seq<u8>, e: Seq<u8>, x: Seq<u8>)
    ensures
        (((a + b) + c) + d) + e + x == (a + (b + (c + (d + e)))) + x,
        (b + (c + (d + e))) + x == b + (c + (d + (e + x))),
{
    assert((((a + b) + c) + d) + e + x =~= (a + (b + (c + (d + e)))) + x);
    assert((b + (c + (d + e))) + x =~= b + (c + (d + (e + x))));
}

proof fn fields_split(
    a: Seq<Field>,
    x: Seq<u8>,
    b: Seq<Field>,
    y: Seq<u8>,
    n: nat,
    keys: Seq<Seq<char>>,
)
    requires
        a.len() == b.len(),
        n <= a.len(),
        short_texts(keys),
        short_fields(a, n, keys),
        short_fields(b, n, keys),
        fields_v2(a, n, keys) is Ok,
        fields_v2(b, n, keys) is Ok,
        fields_v2(a, n, keys)->Ok_0 + x == fields_v2(b, n, keys)->Ok_0 + y,
    ensures
        same_fields(a, b, n, keys),
        x == y,
    decreases a, n,
{
    if n == 0 {
        assert(fields_v2(a, n, keys)->Ok_0 + x =~= x);
        assert(fields_v2(b, n, keys)->Ok_0 + y =~= y);
    } else {
        let m = (n - 1) as nat;
        let p = field_v2(m, a[n - 1], keys)->Ok_0 + x;
        let q = field_v2(m, b[n - 1], keys)->Ok_0 + y;
        assert(fields_v2(a, n, keys)->Ok_0 + x =~= fields_v2(a, m, keys)->Ok_0 + p);
        assert(fields_v2(b, n, keys)->Ok_0 + y =~= fields_v2(b, m, keys)->Ok_0 + q);
        fields_split(a, p, b, q, m, keys);
        field_splits(m, a[n - 1], x, b[n - 1], y, keys);
    }
}

/// Schemas with the same bytes in version 2 are the same: their metadata under the covered keys,
/// and every field, nested ones too, in name, type, nullability and metadata.
pub proof fn fingerprint_v2_tracks_schema_changes(
    one: Schema,
    other: Schema,
    keys: Seq<Seq<char>>,
)
    requires
        short_texts(keys),
        short_metadata(one.metadata@, keys),
        short_metadata(other.metadata@, keys),
        one.fields@.len() < span(8),
        other.fields@.len() < span(8),
        short_fields(one.fields@, one.fields@.len(), keys),
        short_fields(other.fields@, other.fields@.len(), keys),
        schema_v2(one, keys) is Ok,
        schema_v2(one, keys) == schema_v2(other, keys),
    ensures
        same_metadata(one.metadata@, other.metadata@, keys),
        same_fields(one.fields@, other.fields@, one.fields@.len(), keys),
{
    let head = utf8("pf-schema-v2\0"@);
    let (f, g) = (one.fields@, other.fields@);
    let l = schema_v2(one, keys)->Ok_0;
    let r = schema_v2(other, keys)->Ok_0;
    let (s, t) = (fields_v2(f, f.len(), keys)->Ok_0, fields_v2(g, g.len(), keys)->Ok_0);
    let p = le(f.len(), 8) + s;
    let q = le(g.len(), 8) + t;
    assert(l.skip(head.len() as int) =~= metadata_v2(one.metadata@, keys, keys.len()) + p);
    assert(r.skip(head.len() as int) =~= metadata_v2(other.metadata@, keys, keys.len()) + q);
    metadata_splits(one.metadata@, p, other.metadata@, q, keys, keys.len());
    le_round_trip(f.len(), 8);
    le_round_trip(g.len(), 8);
    assert(p.take(8) =~= le(f.len(), 8));
    assert(q.take(8) =~= le(g.len(), 8));
    assert(p.skip(8) =~= s + Seq::<u8>::empty());
    assert(q.skip(8) =~= t + Seq::<u8>::empty());
    fields_split(f, Seq::empty(), g, Seq::empty(), f.len(), keys);
}

/// The value of a metadata key is that of its first entry.
pub proof fn metadata_is_looked_up_by_key(metadata: Seq<(String, String)>, key: Seq<char>)
    ensures
        lookup(metadata, key) is None <==> forall|i: int|
            0 <= i < metadata.len() ==> (#[trigger] metadata[i]).0@ != key,
        lookup(metadata, key) matches Some(v) ==> exists|i: int|
            0 <= i < metadata.len() && (#[trigger] metadata[i]).0@ == key && metadata[i].1@ == v,
    decreases metadata.len(),
{
    if metadata.len() > 0 && metadata[0].0@ != key {
        let rest = metadata.drop_first();
        metadata_is_looked_up_by_key(rest, key);
        if lookup(rest, key) is Some {
            let i = choose|i: int|
                0 <= i < rest.len() && (#[trigger] rest[i]).0@ == key && rest[i].1@ == lookup(
                    rest,
                    key,
                ).unwrap();
            assert(metadata[i + 1] == rest[i]);
        } else {
            assert forall|i: int| 0 <= i < metadata.len() implies (#[trigger] metadata[i]).0@
                != key by {
                if i > 0 {
                    assert(rest[i - 1] == metadata[i]);
                }
            }
        }
        if exists|i: int| 0 <= i < metadata.len() && (#[trigger] metadata[i]).0@ == key {
            let i = choose|i: int| 0 <= i < metadata.len() && (#[trigger] metadata[i]).0@ == key;
            assert(rest[i - 1].0@ == key);
        }
    }
}

/// Every cell of a dataset is fingerprinted, at its row and in its column: the rows of a batch
/// stand behind those of the batches before it.
pub proof fn every_cell_is_fingerprinted(batches: Seq<Batch>, b: int, r: int, c: int)
    requires
        0 <= b < batches.len(),
        0 <= r < batches[b].rows,
        0 <= c < batches[b].columns@.len(),
    ensures
        all_rows(batches).len() == row_total(batches),
        row_total(batches.take(b)) + r < row_total(batches),
        all_rows(batches)[row_total(batches.take(b)) + r].len() == batches[b].columns@.len(),
        all_rows(batches)[row_total(batches.take(b)) + r][c] == item_of(
            batches[b].columns@[c]@[r],
        ),
    decreases batches.len(),
{
    let rest = batches.drop_last();
    rows_add_up(rest);
    rows_add_up(batches);
    if b < rest.len() {
        assert(rest[b] == batches[b]);
        assert(rest.take(b) =~= batches.take(b));
        every_cell_is_fingerprinted(rest, b, r, c);
    } else {
        assert(batches.take(b) =~= rest);
    }
}

proof fn rows_add_up(batches: Seq<Batch>)
    ensures
        all_rows(batches).len() == row_total(batches),
    decreases batches.len(),
{
    if batches.len() > 0 {
        rows_add_up(batches.drop_last());
    }
}

/// The stream of a column holds the cells of that column, of every row in order.
pub proof fn streams_hold_their_columns(columns: nat, rows: Seq<Seq<Item>>, c: int, r: int)
    requires
        0 <= c < columns,
        0 <= r < rows.len(),
    ensures
        streams_v2(columns, rows).len() == columns,
        streams_v2(columns, rows)[c] == column_v2(c as nat, column_of(rows, c)),
        column_of(rows, c).len() == rows.len(),
        column_of(rows, c)[r] == rows[r][c],
{
}

} // verus!
