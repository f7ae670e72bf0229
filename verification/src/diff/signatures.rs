//! What the signature of a schema tells apart.

use crate::bytes::prefixed;
use crate::contract::plan_identity::{
    as_long, begins, behind, parted, parts, short, tags, three, two,
};
use crate::diff::rows::{column_stream, columns_stream, signature_of, signature_stream, ColumnView};
use crate::text::utf8;
use crate::value::Schema;
use vstd::prelude::*;

verus! {

/// Whether the texts of every column are short.
pub open spec fn short_signature(columns: Seq<ColumnView>) -> bool {
    forall|i: int|
        0 <= i < columns.len() ==> short((#[trigger] columns[i]).name) && short(
            columns[i].data_type,
        )
}

proof fn column_streams_apart(a: ColumnView, b: ColumnView)
    requires
        short(a.name),
        short(a.data_type),
        short(b.name),
        short(b.data_type),
    ensures
        parted(column_stream(a), column_stream(b)),
        column_stream(a) == column_stream(b) ==> a == b,
{
    let p: u8 = if a.nullable {
        1
    } else {
        0
    };
    let q: u8 = if b.nullable {
        1
    } else {
        0
    };
    parts(a.name, b.name);
    parts(a.data_type, b.data_type);
    tags(p, q);
    three(
        prefixed(utf8(a.name)),
        prefixed(utf8(a.data_type)),
        seq![p],
        prefixed(utf8(b.name)),
        prefixed(utf8(b.data_type)),
        seq![q],
    );
}

proof fn signatures_apart(a: Seq<ColumnView>, b: Seq<ColumnView>)
    requires
        a.len() == b.len(),
        short_signature(a),
        short_signature(b),
    ensures
        parted(columns_stream(a), columns_stream(b)),
        columns_stream(a) == columns_stream(b) ==> a == b,
    decreases a.len(),
{
    if a.len() == 0 {
        as_long(columns_stream(a), columns_stream(b));
        assert(a =~= b);
    } else {
        let (x, y) = (a.drop_last(), b.drop_last());
        assert forall|i: int| 0 <= i < x.len() implies short((#[trigger] x[i]).name) && short(
            x[i].data_type,
        ) by {
            assert(x[i] == a[i]);
        }
        assert forall|i: int| 0 <= i < y.len() implies short((#[trigger] y[i]).name) && short(
            y[i].data_type,
        ) by {
            assert(y[i] == b[i]);
        }
        signatures_apart(x, y);
        assert(a.last() == a[a.len() - 1] && b.last() == b[b.len() - 1]);
        column_streams_apart(a.last(), b.last());
        two(columns_stream(x), column_stream(a.last()), columns_stream(y), column_stream(b.last()));
        if columns_stream(a) == columns_stream(b) {
            assert(a =~= x.push(a.last()));
            assert(b =~= y.push(b.last()));
        }
    }
}

proof fn leading_columns(b: Seq<ColumnView>, m: int)
    requires
        0 <= m <= b.len(),
    ensures
        begins(columns_stream(b.take(m)), columns_stream(b)),
        columns_stream(b.take(m)).len() <= columns_stream(b).len(),
        m < b.len() ==> columns_stream(b.take(m)).len() < columns_stream(b).len(),
    decreases b.len(),
{
    if m == b.len() {
        assert(b.take(m) =~= b);
    } else {
        let rest = b.drop_last();
        leading_columns(rest, m);
        assert(rest.take(m) =~= b.take(m));
        assert(column_stream(b.last()).len() > 0);
        let (s, t) = (columns_stream(b.take(m)), columns_stream(rest));
        assert forall|i: int| 0 <= i < s.len() implies #[trigger] s[i] == columns_stream(b)[i] by {
            assert(s[i] == t[i]);
        }
    }
}

proof fn as_many_columns(a: Seq<ColumnView>, b: Seq<ColumnView>)
    requires
        a.len() < b.len(),
        short_signature(a),
        short_signature(b),
    ensures
        columns_stream(a) != columns_stream(b),
{
    let m = a.len() as int;
    leading_columns(b, m);
    let lead = b.take(m);
    assert forall|i: int| 0 <= i < lead.len() implies short((#[trigger] lead[i]).name) && short(
        lead[i].data_type,
    ) by {
        assert(lead[i] == b[i]);
    }
    signatures_apart(a, lead);
    if columns_stream(a) == columns_stream(b) {
        let (s, t) = (columns_stream(a), columns_stream(lead));
        assert forall|i: int| 0 <= i < s.len() && i < t.len() implies #[trigger] s[i] == t[i] by {
            assert(t[i] == columns_stream(b)[i]);
        }
        assert(begins(s, t));
    }
}

/// Schemas with the same bytes have the same columns, in number, name, type and nullability: rows
/// are compared only under one schema.
pub proof fn schemas_are_told_apart(a: Seq<ColumnView>, b: Seq<ColumnView>)
    requires
        short_signature(a),
        short_signature(b),
        signature_stream(a) == signature_stream(b),
    ensures
        a == b,
{
    let label = utf8("proofframe:diff-schema:v2\0"@);
    as_long(label, label);
    behind(label, columns_stream(a), label, columns_stream(b));
    if a.len() < b.len() {
        as_many_columns(a, b);
    } else if b.len() < a.len() {
        as_many_columns(b, a);
    } else {
        signatures_apart(a, b);
    }
}

/// The signature of a schema names its columns in order, each with its type and whether it may be
/// null.
pub proof fn signatures_name_every_column(one: Schema, other: Schema)
    ensures
        signature_of(one) == signature_of(other) <==> one.fields@.len() == other.fields@.len()
            && forall|i: int|
            #![trigger one.fields@[i]]
            0 <= i < one.fields@.len() ==> one.fields@[i].name@ == other.fields@[i].name@
                && one.fields@[i].type_text@ == other.fields@[i].type_text@
                && one.fields@[i].nullable == other.fields@[i].nullable,
{
    let a = signature_of(one);
    let b = signature_of(other);
    assert(a.len() == one.fields@.len() && b.len() == other.fields@.len());
    if a == b {
        assert forall|i: int| #![trigger one.fields@[i]] 0 <= i < one.fields@.len() implies
            one.fields@[i].name@ == other.fields@[i].name@ && one.fields@[i].type_text@
            == other.fields@[i].type_text@ && one.fields@[i].nullable
            == other.fields@[i].nullable by {
            assert(a[i].name == one.fields@[i].name@ && b[i].name == other.fields@[i].name@);
            assert(a[i].data_type == one.fields@[i].type_text@);
            assert(b[i].data_type == other.fields@[i].type_text@);
        }
    }
    if one.fields@.len() == other.fields@.len() && forall|i: int|
        #![trigger one.fields@[i]]
        0 <= i < one.fields@.len() ==> one.fields@[i].name@ == other.fields@[i].name@
            && one.fields@[i].type_text@ == other.fields@[i].type_text@ && one.fields@[i].nullable
            == other.fields@[i].nullable {
        assert(a =~= b) by {
            assert forall|i: int| 0 <= i < a.len() implies a[i] == b[i] by {
                assert(one.fields@[i].name@ == other.fields@[i].name@);
            }
        }
    }
}

} // verus!
