//! Columnar data: types, schemas, cells, and batches of rows.

use crate::text::{opt_text, str_eq};
use vstd::prelude::*;

verus! {

/// The unit of a timestamp.
#[derive(Debug, Clone, Copy, PartialEq, Eq, Structural)]
pub enum TimeUnit {
    Second,
    Millisecond,
    Microsecond,
    Nanosecond,
}

/// The type of a column.
#[derive(Debug)]
pub enum DataType {
    Null,
    Boolean,
    Int8,
    Int16,
    Int32,
    Int64,
    UInt8,
    UInt16,
    UInt32,
    UInt64,
    Float32,
    Float64,
    Date32,
    Date64,
    Timestamp(TimeUnit, Option<String>),
    Decimal128(u8, i8),
    Utf8,
    LargeUtf8,
    Utf8View,
    Binary,
    LargeBinary,
    BinaryView,
    List(Box<Field>),
    LargeList(Box<Field>),
    FixedSizeList(Box<Field>, i32),
    Struct(Vec<Field>),
    Entries(Box<Field>, bool),
    /// A type that the library has no encoding for.
    Other,
}

/// A named column of a schema. `type_text` is the display spelling of its type.
#[derive(Debug)]
pub struct Field {
    pub name: String,
    pub data_type: DataType,
    pub type_text: String,
    pub nullable: bool,
    pub metadata: Vec<(String, String)>,
}

/// The columns of a table, in order.
#[derive(Debug)]
pub struct Schema {
    pub fields: Vec<Field>,
    pub metadata: Vec<(String, String)>,
}

/// One value of a column. A float is held by its bit pattern.
#[derive(Debug)]
pub enum Cell {
    Null,
    Boolean(bool),
    Int8(i8),
    Int16(i16),
    Int32(i32),
    Int64(i64),
    UInt8(u8),
    UInt16(u16),
    UInt32(u32),
    UInt64(u64),
    Float32(u32),
    Float64(u64),
    Date32(i32),
    Date64(i64),
    Timestamp(TimeUnit, i64),
    Decimal128(i128),
    Utf8(String),
    LargeUtf8(String),
    Utf8View(String),
    Binary(Vec<u8>),
    LargeBinary(Vec<u8>),
    BinaryView(Vec<u8>),
    List(Vec<Cell>),
    LargeList(Vec<Cell>),
    FixedSizeList(Vec<Cell>),
    Struct(Vec<Cell>),
    Entries(Vec<Cell>),
    /// A value of a type that the library has no encoding for.
    Other,
}

/// Rows of a table, held column by column.
#[derive(Debug)]
pub struct Batch {
    pub columns: Vec<Vec<Cell>>,
    pub rows: usize,
}

impl Batch {
    /// Every column has one cell for each row.
    pub open spec fn wf(&self) -> bool {
        forall|c: int|
            0 <= c < self.columns@.len() ==> (#[trigger] self.columns@[c])@.len() == self.rows
    }
}

/// The position of the first column with a name.
pub open spec fn first_named(fields: Seq<Field>, name: Seq<char>) -> Option<int>
    decreases fields.len(),
{
    if fields.len() == 0 {
        None
    } else {
        match first_named(fields.drop_last(), name) {
            Some(i) => Some(i),
            None => if fields.last().name@ == name {
                Some(fields.len() - 1)
            } else {
                None
            },
        }
    }
}

/// A position that `first_named` gives is in range, has the name, and is the first.
pub proof fn first_named_is_first(fields: Seq<Field>, name: Seq<char>)
    ensures
        match first_named(fields, name) {
            Some(i) => 0 <= i < fields.len() && fields[i].name@ == name && forall|j: int|
                0 <= j < i ==> (#[trigger] fields[j]).name@ != name,
            None => forall|j: int| 0 <= j < fields.len() ==> (#[trigger] fields[j]).name@ != name,
        },
    decreases fields.len(),
{
    if fields.len() > 0 {
        let rest = fields.drop_last();
        first_named_is_first(rest, name);
        assert forall|j: int| 0 <= j < rest.len() implies rest[j] == #[trigger] fields[j] by {}
    }
}

impl Schema {
    /// The position of the first column with a name.
    pub fn index_of(&self, name: &str) -> (r: Option<usize>)
        ensures
            match first_named(self.fields@, name@) {
                Some(i) => (r matches Some(k) && k == i) && 0 <= i < self.fields@.len(),
                None => r is None,
            },
    {
        let mut i: usize = 0;
        proof {
            first_named_is_first(self.fields@, name@);
        }
        while i < self.fields.len()
            invariant
                i <= self.fields@.len(),
                forall|j: int| 0 <= j < i ==> (#[trigger] self.fields@[j]).name@ != name@,
            decreases self.fields@.len() - i,
        {
            if str_eq(self.fields[i].name.as_str(), name) {
                proof {
                    first_named_is_first(self.fields@, name@);
                }
                return Some(i);
            }
            i = i + 1;
        }
        proof {
            first_named_is_first(self.fields@, name@);
        }
        None
    }
}

/// Metadata with equal keys and values in equal order.
pub open spec fn same_metadata(a: Seq<(String, String)>, b: Seq<(String, String)>) -> bool {
    &&& a.len() == b.len()
    &&& forall|i: int|
        #![trigger a[i]]
        0 <= i < a.len() ==> a[i].0@ == b[i].0@ && a[i].1@ == b[i].1@
}

/// Whether two types are equal.
pub open spec fn same_type(a: DataType, b: DataType) -> bool
    decreases a, 0nat,
{
    match (a, b) {
        (DataType::Timestamp(u, x), DataType::Timestamp(v, y)) => u == v && opt_text(x) == opt_text(
            y,
        ),
        (DataType::Decimal128(p, s), DataType::Decimal128(q, t)) => p == q && s == t,
        (DataType::List(x), DataType::List(y)) => same_field(*x, *y),
        (DataType::LargeList(x), DataType::LargeList(y)) => same_field(*x, *y),
        (DataType::FixedSizeList(x, n), DataType::FixedSizeList(y, m)) => n == m && same_field(
            *x,
            *y,
        ),
        (DataType::Struct(x), DataType::Struct(y)) => x@.len() == y@.len() && same_fields(
            x@,
            y@,
            x@.len(),
        ),
        (DataType::Entries(x, s), DataType::Entries(y, t)) => s == t && same_field(*x, *y),
        (DataType::Null, DataType::Null) => true,
        (DataType::Boolean, DataType::Boolean) => true,
        (DataType::Int8, DataType::Int8) => true,
        (DataType::Int16, DataType::Int16) => true,
        (DataType::Int32, DataType::Int32) => true,
        (DataType::Int64, DataType::Int64) => true,
        (DataType::UInt8, DataType::UInt8) => true,
        (DataType::UInt16, DataType::UInt16) => true,
        (DataType::UInt32, DataType::UInt32) => true,
        (DataType::UInt64, DataType::UInt64) => true,
        (DataType::Float32, DataType::Float32) => true,
        (DataType::Float64, DataType::Float64) => true,
        (DataType::Date32, DataType::Date32) => true,
        (DataType::Date64, DataType::Date64) => true,
        (DataType::Utf8, DataType::Utf8) => true,
        (DataType::LargeUtf8, DataType::LargeUtf8) => true,
        (DataType::Utf8View, DataType::Utf8View) => true,
        (DataType::Binary, DataType::Binary) => true,
        (DataType::LargeBinary, DataType::LargeBinary) => true,
        (DataType::BinaryView, DataType::BinaryView) => true,
        (DataType::Other, DataType::Other) => true,
        _ => false,
    }
}

/// Whether two fields are equal.
pub open spec fn same_field(a: Field, b: Field) -> bool
    decreases a, 0nat,
{
    &&& a.name@ == b.name@
    &&& a.type_text@ == b.type_text@
    &&& a.nullable == b.nullable
    &&& same_metadata(a.metadata@, b.metadata@)
    &&& same_type(a.data_type, b.data_type)
}

/// Whether the first `n` fields of two lists are equal.
pub open spec fn same_fields(a: Seq<Field>, b: Seq<Field>, n: nat) -> bool
    decreases a, n,
{
    n == 0 || (n <= a.len() && n <= b.len() && same_fields(a, b, (n - 1) as nat) && same_field(
        a[n - 1],
        b[n - 1],
    ))
}

/// Whether two schemas are equal.
pub open spec fn same_schema(a: Schema, b: Schema) -> bool {
    &&& a.fields@.len() == b.fields@.len()
    &&& same_fields(a.fields@, b.fields@, a.fields@.len())
    &&& same_metadata(a.metadata@, b.metadata@)
}

fn metadata_eq(a: &Vec<(String, String)>, b: &Vec<(String, String)>) -> (r: bool)
    ensures
        r == same_metadata(a@, b@),
{
    if a.len() != b.len() {
        return false;
    }
    let mut i: usize = 0;
    while i < a.len()
        invariant
            i <= a@.len(),
            a@.len() == b@.len(),
            forall|j: int|
                #![trigger a@[j]]
                0 <= j < i ==> a@[j].0@ == b@[j].0@ && a@[j].1@ == b@[j].1@,
        decreases a@.len() - i,
    {
        if !str_eq(a[i].0.as_str(), b[i].0.as_str()) || !str_eq(
            a[i].1.as_str(),
            b[i].1.as_str(),
        ) {
            assert(!(a@[i as int].0@ == b@[i as int].0@ && a@[i as int].1@ == b@[i as int].1@));
            return false;
        }
        i = i + 1;
    }
    true
}

fn opt_eq(a: &Option<String>, b: &Option<String>) -> (r: bool)
    ensures
        r == (opt_text(*a) == opt_text(*b)),
{
    match (a, b) {
        (Some(x), Some(y)) => str_eq(x.as_str(), y.as_str()),
        (None, None) => true,
        _ => false,
    }
}

/// Whether two types are equal.
pub fn type_eq(a: &DataType, b: &DataType) -> (r: bool)
    ensures
        r == same_type(*a, *b),
    decreases *a, 0nat,
{
    match (a, b) {
        (DataType::Timestamp(u, x), DataType::Timestamp(v, y)) => *u == *v && opt_eq(x, y),
        (DataType::Decimal128(p, s), DataType::Decimal128(q, t)) => *p == *q && *s == *t,
        (DataType::List(x), DataType::List(y)) => field_eq(x, y),
        (DataType::LargeList(x), DataType::LargeList(y)) => field_eq(x, y),
        (DataType::FixedSizeList(x, n), DataType::FixedSizeList(y, m)) => *n == *m && field_eq(
            x,
            y,
        ),
        (DataType::Struct(x), DataType::Struct(y)) => x.len() == y.len() && fields_eq(
            x,
            y,
            x.len(),
        ),
        (DataType::Entries(x, s), DataType::Entries(y, t)) => *s == *t && field_eq(x, y),
        (DataType::Null, DataType::Null) => true,
        (DataType::Boolean, DataType::Boolean) => true,
        (DataType::Int8, DataType::Int8) => true,
        (DataType::Int16, DataType::Int16) => true,
        (DataType::Int32, DataType::Int32) => true,
        (DataType::Int64, DataType::Int64) => true,
        (DataType::UInt8, DataType::UInt8) => true,
        (DataType::UInt16, DataType::UInt16) => true,
        (DataType::UInt32, DataType::UInt32) => true,
        (DataType::UInt64, DataType::UInt64) => true,
        (DataType::Float32, DataType::Float32) => true,
        (DataType::Float64, DataType::Float64) => true,
        (DataType::Date32, DataType::Date32) => true,
        (DataType::Date64, DataType::Date64) => true,
        (DataType::Utf8, DataType::Utf8) => true,
        (DataType::LargeUtf8, DataType::LargeUtf8) => true,
        (DataType::Utf8View, DataType::Utf8View) => true,
        (DataType::Binary, DataType::Binary) => true,
        (DataType::LargeBinary, DataType::LargeBinary) => true,
        (DataType::BinaryView, DataType::BinaryView) => true,
        (DataType::Other, DataType::Other) => true,
        _ => false,
    }
}

/// Whether two fields are equal.
pub fn field_eq(a: &Field, b: &Field) -> (r: bool)
    ensures
        r == same_field(*a, *b),
    decreases *a, 0nat,
{
    str_eq(a.name.as_str(), b.name.as_str()) && str_eq(
        a.type_text.as_str(),
        b.type_text.as_str(),
    ) && a.nullable == b.nullable && metadata_eq(&a.metadata, &b.metadata) && type_eq(
        &a.data_type,
        &b.data_type,
    )
}

fn fields_eq(a: &Vec<Field>, b: &Vec<Field>, n: usize) -> (r: bool)
    requires
        n <= a@.len(),
        n <= b@.len(),
    ensures
        r == same_fields(a@, b@, n as nat),
    decreases a@, n as nat,
{
    n == 0 || (fields_eq(a, b, n - 1) && field_eq(&a[n - 1], &b[n - 1]))
}

/// Whether two schemas are equal.
pub fn schema_eq(a: &Schema, b: &Schema) -> (r: bool)
    ensures
        r == same_schema(*a, *b),
{
    a.fields.len() == b.fields.len() && fields_eq(&a.fields, &b.fields, a.fields.len())
        && metadata_eq(&a.metadata, &b.metadata)
}

/// A copy of metadata.
pub fn copy_metadata(metadata: &Vec<(String, String)>) -> (r: Vec<(String, String)>)
    ensures
        same_metadata(r@, metadata@),
{
    let mut r: Vec<(String, String)> = Vec::new();
    let mut i: usize = 0;
    while i < metadata.len()
        invariant
            i <= metadata@.len(),
            r@.len() == i,
            forall|j: int|
                #![trigger r@[j]]
                0 <= j < i ==> r@[j].0@ == metadata@[j].0@ && r@[j].1@ == metadata@[j].1@,
        decreases metadata@.len() - i,
    {
        r.push((metadata[i].0.clone(), metadata[i].1.clone()));
        i = i + 1;
    }
    r
}

fn copy_type(data_type: &DataType) -> (r: DataType)
    ensures
        same_type(r, *data_type),
    decreases *data_type, 0nat,
{
    match data_type {
        DataType::Null => DataType::Null,
        DataType::Boolean => DataType::Boolean,
        DataType::Int8 => DataType::Int8,
        DataType::Int16 => DataType::Int16,
        DataType::Int32 => DataType::Int32,
        DataType::Int64 => DataType::Int64,
        DataType::UInt8 => DataType::UInt8,
        DataType::UInt16 => DataType::UInt16,
        DataType::UInt32 => DataType::UInt32,
        DataType::UInt64 => DataType::UInt64,
        DataType::Float32 => DataType::Float32,
        DataType::Float64 => DataType::Float64,
        DataType::Date32 => DataType::Date32,
        DataType::Date64 => DataType::Date64,
        DataType::Timestamp(unit, zone) => DataType::Timestamp(
            *unit,
            match zone {
                Some(z) => Some(z.clone()),
                None => None,
            },
        ),
        DataType::Decimal128(precision, scale) => DataType::Decimal128(*precision, *scale),
        DataType::Utf8 => DataType::Utf8,
        DataType::LargeUtf8 => DataType::LargeUtf8,
        DataType::Utf8View => DataType::Utf8View,
        DataType::Binary => DataType::Binary,
        DataType::LargeBinary => DataType::LargeBinary,
        DataType::BinaryView => DataType::BinaryView,
        DataType::List(f) => DataType::List(Box::new(copy_field(f))),
        DataType::LargeList(f) => DataType::LargeList(Box::new(copy_field(f))),
        DataType::FixedSizeList(f, n) => DataType::FixedSizeList(Box::new(copy_field(f)), *n),
        DataType::Struct(fields) => DataType::Struct(copy_fields(fields, fields.len())),
        DataType::Entries(f, sorted) => DataType::Entries(Box::new(copy_field(f)), *sorted),
        DataType::Other => DataType::Other,
    }
}

/// A copy of a field.
pub fn copy_field(field: &Field) -> (r: Field)
    ensures
        same_field(r, *field),
    decreases *field, 0nat,
{
    Field {
        name: field.name.clone(),
        data_type: copy_type(&field.data_type),
        type_text: field.type_text.clone(),
        nullable: field.nullable,
        metadata: copy_metadata(&field.metadata),
    }
}

fn copy_fields(fields: &Vec<Field>, n: usize) -> (r: Vec<Field>)
    requires
        n <= fields@.len(),
    ensures
        r@.len() == n,
        same_fields(r@, fields@, n as nat),
    decreases fields@, n as nat,
{
    if n == 0 {
        return Vec::new();
    }
    let mut r = copy_fields(fields, n - 1);
    let ghost before = r@;
    r.push(copy_field(&fields[n - 1]));
    proof {
        same_fields_of_prefix(before, r@, fields@, (n - 1) as nat);
    }
    r
}

proof fn same_fields_of_prefix(a: Seq<Field>, longer: Seq<Field>, b: Seq<Field>, n: nat)
    requires
        n <= a.len() <= longer.len(),
        forall|i: int| 0 <= i < a.len() ==> #[trigger] longer[i] == a[i],
        same_fields(a, b, n),
    ensures
        same_fields(longer, b, n),
    decreases n,
{
    if n > 0 {
        same_fields_of_prefix(a, longer, b, (n - 1) as nat);
    }
}

/// A copy of a schema.
pub fn copy_schema(schema: &Schema) -> (r: Schema)
    ensures
        same_schema(r, *schema),
{
    Schema {
        fields: copy_fields(&schema.fields, schema.fields.len()),
        metadata: copy_metadata(&schema.metadata),
    }
}

} // verus!
