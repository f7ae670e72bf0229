//! What the rows that two datasets share say of them, and which schemas are the same.

use crate::distinct::merge::{common, common_is_the_intersection};
use crate::distinct::order::{key_less, key_total, keys, sorted, Entry, Key};
use crate::leakage::{
    first_shared, identities, identity_error, identity_of, incompatible, tells, LeakageOptions,
    LeakageReport,
};
use crate::text::texts;
use crate::value::{
    same_field, same_fields, same_metadata, same_schema, same_type, Batch, DataType, Field, Schema,
};
use vstd::prelude::*;

verus! {

/// Two datasets share a value exactly where both hold it: nothing is shared where neither side
/// holds a value of the other, and a single common value is found.
pub proof fn common_values_are_found(a: Seq<Entry>, b: Seq<Entry>)
    requires
        sorted(a),
        sorted(b),
    ensures
        common(a, b).len() > 0 <==> exists|i: int, j: int|
            #![trigger a[i], b[j]]
            0 <= i < a.len() && 0 <= j < b.len() && a[i].0 == b[j].0,
        forall|k: Key| #[trigger]
            common(a, b).contains(k) <==> keys(a).contains(k) && keys(b).contains(k),
{
    common_is_the_intersection(a, b);
    let list = common(a, b);
    assert forall|k: Key| #[trigger] list.contains(k) <==> keys(a).contains(k) && keys(
        b,
    ).contains(k) by {
        assert(list.to_set().contains(k) <==> keys(a).intersect(keys(b)).contains(k));
        assert(list.contains(k) <==> list.to_set().contains(k));
    }
    if list.len() > 0 {
        assert(list.contains(list[0]));
        let k = list[0];
        let i = choose|i: int| 0 <= i < a.len() && (#[trigger] a[i]).0 == k;
        let j = choose|j: int| 0 <= j < b.len() && (#[trigger] b[j]).0 == k;
        assert(a[i].0 == b[j].0);
    }
    if exists|i: int, j: int|
        #![trigger a[i], b[j]]
        0 <= i < a.len() && 0 <= j < b.len() && a[i].0 == b[j].0 {
        let (i, j) = choose|i: int, j: int|
            #![trigger a[i], b[j]]
            0 <= i < a.len() && 0 <= j < b.len() && a[i].0 == b[j].0;
        assert(keys(a).contains(a[i].0));
        assert(keys(b).contains(a[i].0));
        assert(list.contains(a[i].0));
    }
}

/// What two datasets share does not depend on which comes first.
pub proof fn sharing_has_no_side(a: Seq<Entry>, b: Seq<Entry>)
    requires
        sorted(a),
        sorted(b),
    ensures
        common(a, b) == common(b, a),
{
    common_is_the_intersection(a, b);
    common_is_the_intersection(b, a);
    assert(keys(a).intersect(keys(b)) =~= keys(b).intersect(keys(a)));
    ascending_keys_are_one(common(a, b), common(b, a));
}

proof fn ascending_keys_are_one(x: Seq<Key>, y: Seq<Key>)
    requires
        x.to_set() == y.to_set(),
        forall|i: int, j: int|
            0 <= i < j < x.len() ==> key_less(#[trigger] x[i], #[trigger] x[j]),
        forall|i: int, j: int|
            0 <= i < j < y.len() ==> key_less(#[trigger] y[i], #[trigger] y[j]),
    ensures
        x == y,
    decreases x.len(),
{
    if x.len() == 0 {
        if y.len() > 0 {
            assert(y.to_set().contains(y[0]));
            assert(x.contains(y[0]));
        }
        assert(x =~= y);
    } else {
        assert(x.to_set().contains(x[x.len() - 1]));
        assert(y.contains(x.last()));
        let p = choose|p: int| 0 <= p < y.len() && y[p] == x.last();
        let q = y.len() - 1;
        assert(y.to_set().contains(y[q]));
        assert(x.contains(y[q]));
        let r = choose|r: int| 0 <= r < x.len() && x[r] == y[q];
        if p < q {
            assert(key_less(y[p], y[q]));
            if r < x.len() - 1 {
                assert(key_less(x[r], x[x.len() - 1]));
            }
            key_total(y[p], y[q]);
        }
        assert(x.last() == y.last());
        let (s, t) = (x.drop_last(), y.drop_last());
        assert forall|k: Key| s.to_set().contains(k) == t.to_set().contains(k) by {
            assert(s.to_set().contains(k) <==> s.contains(k));
            assert(t.to_set().contains(k) <==> t.contains(k));
            if s.contains(k) {
                let i = choose|i: int| 0 <= i < s.len() && s[i] == k;
                assert(x[i] == k);
                assert(key_less(x[i], x[x.len() - 1]));
                key_total(k, x.last());
                assert(x.to_set().contains(k));
                assert(y.contains(k));
                let j = choose|j: int| 0 <= j < y.len() && y[j] == k;
                assert(t[j] == k);
            }
            if t.contains(k) {
                let i = choose|i: int| 0 <= i < t.len() && t[i] == k;
                assert(y[i] == k);
                assert(key_less(y[i], y[y.len() - 1]));
                key_total(k, y.last());
                assert(y.to_set().contains(k));
                assert(x.contains(k));
                let j = choose|j: int| 0 <= j < x.len() && x[j] == k;
                assert(s[j] == k);
            }
        }
        assert(s.to_set() =~= t.to_set());
        assert forall|i: int, j: int| 0 <= i < j < s.len() implies key_less(
            #[trigger] s[i],
            #[trigger] s[j],
        ) by {
            assert(key_less(x[i], x[j]));
        }
        assert forall|i: int, j: int| 0 <= i < j < t.len() implies key_less(
            #[trigger] t[i],
            #[trigger] t[j],
        ) by {
            assert(key_less(y[i], y[j]));
        }
        ascending_keys_are_one(s, t);
        assert(x =~= s.push(x.last()));
        assert(y =~= t.push(y.last()));
    }
}

/// Every row of a batch is collected, under the number of its row with its own identity.
pub proof fn every_row_is_identified(
    schema: Schema,
    batch: Batch,
    indexes: Seq<usize>,
    full_row: bool,
    before: int,
    n: nat,
)
    requires
        identities(schema, batch, indexes, full_row, before, n).error is None,
    ensures
        identities(schema, batch, indexes, full_row, before, n).entries.len() == n,
        forall|i: int|
            0 <= i < n ==> #[trigger] identities(
                schema,
                batch,
                indexes,
                full_row,
                before,
                n,
            ).entries[i] == (
                Key::Bytes(identity_of(schema, batch, i, indexes, full_row)),
                (before + i) as u64,
            ),
    decreases n,
{
    if n > 0 {
        every_row_is_identified(schema, batch, indexes, full_row, before, (n - 1) as nat);
    }
}

/// Rows are compared as a whole only between datasets of one schema.
pub proof fn whole_rows_need_one_schema(train: Schema, test: Schema)
    ensures
        identity_error(train, test, Seq::empty()) is None <==> same_schema(train, test),
{
}

/// Columns can be parts of one key only where they have one name, one type and the same
/// nullability.
pub proof fn keys_need_alike_columns(a: Field, b: Field)
    ensures
        !incompatible(a, b) <==> a.name@ == b.name@ && same_type(a.data_type, b.data_type)
            && a.nullable == b.nullable,
{
}

/// Schemas that are the same have the same columns in the same order: as many, with the same
/// names, types, nullability and metadata.
pub proof fn same_schemas_have_the_same_columns(a: Schema, b: Schema)
    requires
        same_schema(a, b),
    ensures
        a.fields@.len() == b.fields@.len(),
        forall|i: int|
            #![trigger a.fields@[i]]
            0 <= i < a.fields@.len() ==> a.fields@[i].name@ == b.fields@[i].name@
                && a.fields@[i].nullable == b.fields@[i].nullable && same_type(
                a.fields@[i].data_type,
                b.fields@[i].data_type,
            ) && same_metadata(a.fields@[i].metadata@, b.fields@[i].metadata@),
        a.metadata@.len() == b.metadata@.len(),
        forall|i: int|
            #![trigger a.metadata@[i]]
            0 <= i < a.metadata@.len() ==> a.metadata@[i].0@ == b.metadata@[i].0@
                && a.metadata@[i].1@ == b.metadata@[i].1@,
{
    fields_one_by_one(a.fields@, b.fields@, a.fields@.len());
}

proof fn fields_one_by_one(a: Seq<Field>, b: Seq<Field>, n: nat)
    requires
        same_fields(a, b, n),
        n <= a.len(),
        n <= b.len(),
    ensures
        forall|i: int| #![trigger a[i]] 0 <= i < n ==> same_field(a[i], b[i]),
    decreases n,
{
    if n > 0 {
        fields_one_by_one(a, b, (n - 1) as nat);
    }
}

/// Types that are the same are of one kind, with the same parameters.
pub proof fn same_types_are_of_one_kind(a: DataType, b: DataType)
    requires
        same_type(a, b),
    ensures
        a is Int8 <==> b is Int8,
        a is Int16 <==> b is Int16,
        a is Int32 <==> b is Int32,
        a is Int64 <==> b is Int64,
        a is UInt8 <==> b is UInt8,
        a is UInt16 <==> b is UInt16,
        a is UInt32 <==> b is UInt32,
        a is UInt64 <==> b is UInt64,
        a is Float32 <==> b is Float32,
        a is Float64 <==> b is Float64,
        a is Boolean <==> b is Boolean,
        a is Date32 <==> b is Date32,
        a is Date64 <==> b is Date64,
        a is Utf8 <==> b is Utf8,
        a is LargeUtf8 <==> b is LargeUtf8,
        a is Utf8View <==> b is Utf8View,
        a is Binary <==> b is Binary,
        a is LargeBinary <==> b is LargeBinary,
        a is BinaryView <==> b is BinaryView,
        a is List <==> b is List,
        a is LargeList <==> b is LargeList,
        a is Struct <==> b is Struct,
        a matches DataType::Timestamp(u, x) ==> (b matches DataType::Timestamp(v, y) && u == v),
        a matches DataType::Decimal128(p, s) ==> (b matches DataType::Decimal128(q, t) && p == q
            && s == t),
        a matches DataType::FixedSizeList(f, n) ==> (b matches DataType::FixedSizeList(g, m) && n
            == m && same_field(*f, *g)),
        a matches DataType::Entries(f, s) ==> (b matches DataType::Entries(g, t) && s == t
            && same_field(*f, *g)),
{
}

/// No more samples are kept than either limit allows, and as many as both do.
pub proof fn samples_keep_both_limits(options: LeakageOptions)
    ensures
        options.spec_limit() <= options.max_samples,
        options.spec_limit() <= options.resources.max_samples,
        options.spec_limit() == options.max_samples || options.spec_limit()
            == options.resources.max_samples,
{
}

/// A report of leakage says that there is some exactly where a value is shared, and keeps the first
/// samples, up to the limit; it says that samples are left out exactly where some are.
pub proof fn leakage_is_told(
    r: LeakageReport,
    keys: Seq<Seq<char>>,
    train_rows: usize,
    test_rows: usize,
    train_distinct: nat,
    test_distinct: nat,
    shared: Seq<Key>,
    limit: nat,
)
    requires
        tells(
            r,
            keys,
            train_rows,
            test_rows,
            train_distinct,
            test_distinct,
            shared.len(),
            first_shared(shared, limit),
        ),
    ensures
        r.detected <==> exists|k: Key| #[trigger] shared.contains(k),
        first_shared(shared, limit).len() <= limit,
        r.truncated <==> limit < shared.len(),
        forall|i: int|
            0 <= i < shared.len() && i < limit ==> #[trigger] first_shared(shared, limit)[i]
                == shared[i],
        r.sample_fingerprints@.len() == first_shared(shared, limit).len(),
{
    if shared.len() > 0 {
        assert(shared.contains(shared[0]));
    }
    assert(texts(r.sample_fingerprints@).len() == r.sample_fingerprints@.len());
}

} // verus!
