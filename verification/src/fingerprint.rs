//! Dataset fingerprints: digests of a schema and every row, in two versions.

use crate::bytes::{le, prefixed, push_all, push_le, push_le_signed, push_prefixed, twos};
use crate::digest::{
    absorbed, blake3_digest, digest_of, feed, hasher_finish, hasher_new, hex, tagged_hex,
};
use crate::encoding::{encodable, encoded, item_of, write_v1_value, Item};
use crate::error::{ErrorView, ProofFrameError};
use crate::text::{opt_text, str_eq, text, texts, utf8};
use crate::value::{Batch, Cell, DataType, Field, Schema, TimeUnit};
use vstd::prelude::*;

verus! {

/// Version of the fingerprint definition.
#[derive(Debug, Clone, Copy, PartialEq, Eq, Structural)]
pub enum FingerprintVersion {
    V1,
    V2,
}

/// The version of a fingerprint and the metadata keys that it covers, sorted.
#[derive(Debug)]
pub struct FingerprintOptions {
    version: FingerprintVersion,
    metadata_keys: Vec<String>,
}

impl FingerprintOptions {
    /// The version of the fingerprint.
    pub closed spec fn spec_version(&self) -> FingerprintVersion {
        self.version
    }

    /// The metadata keys that the fingerprint covers.
    pub closed spec fn keys(&self) -> Seq<Seq<char>> {
        texts(self.metadata_keys@)
    }

    /// Options that cover no metadata.
    pub fn new(version: FingerprintVersion) -> (r: Self)
        ensures
            r.spec_version() == version,
            r.keys() == Seq::<Seq<char>>::empty(),
    {
        let r = FingerprintOptions { version, metadata_keys: Vec::new() };
        assert(texts(r.metadata_keys@) =~= Seq::empty());
        r
    }

    /// Options that cover the given metadata keys.
    pub fn with_metadata_keys(version: FingerprintVersion, metadata_keys: Vec<String>) -> (r: Self)
        ensures
            r.spec_version() == version,
            r.keys() == texts(metadata_keys@),
    {
        FingerprintOptions { version, metadata_keys }
    }

    /// The version of the fingerprint.
    pub fn version(&self) -> (r: FingerprintVersion)
        ensures
            r == self.spec_version(),
    {
        self.version
    }

    /// The metadata keys that the fingerprint covers.
    pub fn metadata_keys(&self) -> (r: &Vec<String>)
        ensures
            texts(r@) == self.keys(),
    {
        &self.metadata_keys
    }
}

/// Digest of a schema and every row of a dataset, with the number of rows.
#[derive(Debug, Clone, Copy)]
pub struct Fingerprint {
    version: FingerprintVersion,
    digest: [u8; 32],
    rows: u64,
}

/// The prefix of a fingerprint's text.
pub open spec fn version_tag(version: FingerprintVersion) -> Seq<char> {
    match version {
        FingerprintVersion::V1 => "pf-fp-v1:"@,
        FingerprintVersion::V2 => "pf-fp-v2:"@,
    }
}

impl Fingerprint {
    /// The version of the definition.
    pub closed spec fn spec_version(&self) -> FingerprintVersion {
        self.version
    }

    /// The bytes of the digest.
    pub closed spec fn bytes(&self) -> Seq<u8> {
        self.digest@
    }

    /// The number of rows.
    pub closed spec fn spec_rows(&self) -> u64 {
        self.rows
    }

    /// A fingerprint of its three parts.
    pub fn new(version: FingerprintVersion, digest: [u8; 32], rows: u64) -> (r: Self)
        ensures
            r.spec_version() == version,
            r.bytes() == digest@,
            r.spec_rows() == rows,
    {
        Fingerprint { version, digest, rows }
    }

    /// The version of the definition.
    pub fn version(&self) -> (r: FingerprintVersion)
        ensures
            r == self.spec_version(),
    {
        self.version
    }

    /// The digest.
    pub fn digest(&self) -> (r: &[u8; 32])
        ensures
            r@ == self.bytes(),
    {
        &self.digest
    }

    /// The number of rows.
    pub fn rows(&self) -> (r: u64)
        ensures
            r == self.spec_rows(),
    {
        self.rows
    }

    /// The version tag and the digest in hexadecimal.
    pub fn to_tagged_string(&self) -> (r: String)
        ensures
            r@ == version_tag(self.spec_version()) + hex(self.bytes()),
    {
        match self.version {
            FingerprintVersion::V1 => tagged_hex("pf-fp-v1:", self.digest.as_slice()),
            FingerprintVersion::V2 => tagged_hex("pf-fp-v2:", self.digest.as_slice()),
        }
    }
}

/// The display text of the first type without a cell encoding, in a type and the types
/// nested in it.
pub open spec fn unencodable_type(data_type: DataType, shown: Seq<char>) -> Option<Seq<char>>
    decreases data_type, 0nat,
{
    match data_type {
        DataType::List(f) => unencodable_type(f.data_type, f.type_text@),
        DataType::LargeList(f) => unencodable_type(f.data_type, f.type_text@),
        DataType::FixedSizeList(f, _) => unencodable_type(f.data_type, f.type_text@),
        DataType::Entries(f, _) => unencodable_type(f.data_type, f.type_text@),
        DataType::Struct(fields) => unencodable_field(fields@, fields@.len()),
        DataType::Null => Some(shown),
        DataType::Other => Some(shown),
        _ => None,
    }
}

/// The display text of the first type without a cell encoding in the first `n` fields.
pub open spec fn unencodable_field(fields: Seq<Field>, n: nat) -> Option<Seq<char>>
    decreases fields, n,
{
    if n == 0 || n > fields.len() {
        None
    } else {
        match unencodable_field(fields, (n - 1) as nat) {
            Some(shown) => Some(shown),
            None => unencodable_type(fields[n - 1].data_type, fields[n - 1].type_text@),
        }
    }
}

/// Rejects a type that has no cell encoding, or holds one.
pub fn check_type(data_type: &DataType, shown: &str) -> (r: Result<(), ProofFrameError>)
    ensures
        match unencodable_type(*data_type, shown@) {
            None => r is Ok,
            Some(t) => r matches Err(e) && e@ == ErrorView::UnsupportedType(t),
        },
    decreases *data_type, 0nat,
{
    match data_type {
        DataType::List(f) => check_type(&f.data_type, f.type_text.as_str()),
        DataType::LargeList(f) => check_type(&f.data_type, f.type_text.as_str()),
        DataType::FixedSizeList(f, _) => check_type(&f.data_type, f.type_text.as_str()),
        DataType::Entries(f, _) => check_type(&f.data_type, f.type_text.as_str()),
        DataType::Struct(fields) => check_fields(fields, fields.len()),
        DataType::Null => Err(ProofFrameError::UnsupportedType(text(shown))),
        DataType::Other => Err(ProofFrameError::UnsupportedType(text(shown))),
        _ => Ok(()),
    }
}

/// Rejects the first of `n` fields whose type has no cell encoding.
pub fn check_fields(fields: &Vec<Field>, n: usize) -> (r: Result<(), ProofFrameError>)
    requires
        n <= fields@.len(),
    ensures
        match unencodable_field(fields@, n as nat) {
            None => r is Ok,
            Some(t) => r matches Err(e) && e@ == ErrorView::UnsupportedType(t),
        },
    decreases fields@, n as nat,
{
    if n == 0 {
        Ok(())
    } else {
        match check_fields(fields, n - 1) {
            Ok(()) => check_type(&fields[n - 1].data_type, fields[n - 1].type_text.as_str()),
            Err(e) => Err(e),
        }
    }
}

/// What the encodings see of a batch, row by row.
pub open spec fn rows_of(batch: Batch) -> Seq<Seq<Item>> {
    Seq::new(
        batch.rows as nat,
        |r: int| Seq::new(batch.columns@.len(), |c: int| item_of(batch.columns@[c]@[r])),
    )
}

/// What the encodings see of a list of batches, row by row.
pub open spec fn all_rows(batches: Seq<Batch>) -> Seq<Seq<Item>>
    decreases batches.len(),
{
    if batches.len() == 0 {
        Seq::empty()
    } else {
        all_rows(batches.drop_last()) + rows_of(batches.last())
    }
}

/// A batch whose columns are full, as many as the schema has, with cells that all have
/// an encoding.
pub open spec fn readable(batch: Batch, columns: nat) -> bool {
    &&& batch.wf()
    &&& batch.columns@.len() == columns
    &&& forall|c: int, r: int|
        #![trigger batch.columns@[c]@[r]]
        0 <= c < columns && 0 <= r < batch.rows ==> encodable(item_of(batch.columns@[c]@[r]))
}

/// The first `n` cells of a row in version 1: a domain, the column, and the canonical
/// bytes behind their length, for each.
pub open spec fn row_v1(row: Seq<Item>, n: nat) -> Seq<u8>
    decreases n,
{
    if n == 0 {
        Seq::empty()
    } else {
        row_v1(row, (n - 1) as nat) + cell_v1((n - 1) as nat, row[n - 1])
    }
}

/// One cell in version 1.
pub open spec fn cell_v1(column: nat, item: Item) -> Seq<u8> {
    utf8("pf-cell-v1\0"@) + le(column, 8) + prefixed(encoded(item))
}

/// The rows of a dataset in version 1, one after the other.
pub open spec fn body_v1(rows: Seq<Seq<Item>>) -> Seq<u8>
    decreases rows.len(),
{
    if rows.len() == 0 {
        Seq::empty()
    } else {
        body_v1(rows.drop_last()) + row_v1(rows.last(), rows.last().len())
    }
}

/// The first `n` fields of a schema in version 1.
pub open spec fn fields_v1(fields: Seq<Field>, n: nat) -> Seq<u8>
    decreases n,
{
    if n == 0 {
        Seq::empty()
    } else {
        fields_v1(fields, (n - 1) as nat) + utf8("pf-schema-field-v1\0"@) + prefixed(
            utf8(fields[n - 1].name@),
        ) + prefixed(utf8(fields[n - 1].type_text@)) + seq![
            if fields[n - 1].nullable {
                1u8
            } else {
                0u8
            },
        ]
    }
}

/// The schema of a dataset in version 1.
pub open spec fn header_v1(schema: Schema) -> Seq<u8> {
    utf8("pf-fp-v1\0"@) + fields_v1(schema.fields@, schema.fields@.len()) + utf8(
        "pf-fp-body-v1\0"@,
    )
}

/// Rows read in two parts give the bytes of the rows read at once: where a reader puts
/// the bounds of its batches changes no fingerprint of version 1.
pub proof fn body_v1_ignores_batch_boundaries(a: Seq<Seq<Item>>, b: Seq<Seq<Item>>)
    ensures
        body_v1(a + b) == body_v1(a) + body_v1(b),
    decreases b.len(),
{
    if b.len() == 0 {
        assert(a + b =~= a);
        assert(body_v1(a) + body_v1(b) =~= body_v1(a));
    } else {
        body_v1_ignores_batch_boundaries(a, b.drop_last());
        assert((a + b).drop_last() =~= a + b.drop_last());
        assert(body_v1(a + b) =~= body_v1(a) + body_v1(b));
    }
}

/// Appends the length-prefixed canonical bytes of a cell in its column.
pub fn update_v1(hasher: &mut blake3::Hasher, column: usize, cell: &Cell)
    requires
        encodable(item_of(*cell)),
    ensures
        absorbed(*final(hasher)) == absorbed(*old(hasher)) + cell_v1(
            column as nat,
            item_of(*cell),
        ),
{
    let mut value: Vec<u8> = Vec::new();
    let done = write_v1_value(cell, &mut value);
    assert(value@ =~= encoded(item_of(*cell)));
    let mut out: Vec<u8> = Vec::new();
    push_all(&mut out, "pf-cell-v1\0".as_bytes());
    push_le(&mut out, column as u128, 8);
    push_prefixed(&mut out, value.as_slice());
    assert(out@ =~= cell_v1(column as nat, item_of(*cell)));
    feed(hasher, out.as_slice());
}

/// A version 1 fingerprint in the making.
pub struct V1FingerprintState {
    hasher: blake3::Hasher,
    columns: usize,
    rows: u64,
}

impl V1FingerprintState {
    /// The bytes that go into the digest so far.
    pub closed spec fn stream(&self) -> Seq<u8> {
        absorbed(self.hasher)
    }

    /// The number of columns.
    pub closed spec fn width(&self) -> nat {
        self.columns as nat
    }

    /// The number of rows so far.
    pub closed spec fn count(&self) -> u64 {
        self.rows
    }

    /// Starts the fingerprint of a dataset with a schema whose types all have an encoding.
    pub fn new(schema: &Schema) -> (r: Result<Self, ProofFrameError>)
        ensures
            match unencodable_field(schema.fields@, schema.fields@.len()) {
                None => r matches Ok(s) && s.stream() == header_v1(*schema) && s.width()
                    == schema.fields@.len() && s.count() == 0,
                Some(t) => r matches Err(e) && e@ == ErrorView::UnsupportedType(t),
            },
    {
        match check_fields(&schema.fields, schema.fields.len()) {
            Ok(()) => Ok(Self::begin(schema)),
            Err(e) => Err(e),
        }
    }

    /// Starts the fingerprint of a dataset with a schema, whatever its types.
    pub fn begin(schema: &Schema) -> (r: Self)
        ensures
            r.stream() == header_v1(*schema),
            r.width() == schema.fields@.len(),
            r.count() == 0,
    {
        let mut out: Vec<u8> = Vec::new();
        push_all(&mut out, "pf-fp-v1\0".as_bytes());
        let ghost start = out@;
        let mut i: usize = 0;
        assert(out@ =~= start + fields_v1(schema.fields@, 0));
        while i < schema.fields.len()
            invariant
                i <= schema.fields@.len(),
                out@ == start + fields_v1(schema.fields@, i as nat),
            decreases schema.fields@.len() - i,
        {
            let field = &schema.fields[i];
            push_schema_field(&mut out, field);
            i = i + 1;
            assert(out@ =~= start + fields_v1(schema.fields@, i as nat));
        }
        push_all(&mut out, "pf-fp-body-v1\0".as_bytes());
        assert(out@ =~= header_v1(*schema));
        let mut hasher = hasher_new();
        feed(&mut hasher, out.as_slice());
        assert(absorbed(hasher) =~= header_v1(*schema));
        V1FingerprintState { hasher, columns: schema.fields.len(), rows: 0 }
    }

    /// The number of rows so far.
    pub fn rows(&self) -> (r: u64)
        ensures
            r == self.count(),
    {
        self.rows
    }

    /// Adds the rows of a batch.
    pub fn update(&mut self, batch: &Batch)
        requires
            readable(*batch, old(self).width()),
            old(self).count() + batch.rows <= u64::MAX,
        ensures
            final(self).stream() == old(self).stream() + body_v1(rows_of(*batch)),
            final(self).width() == old(self).width(),
            final(self).count() == old(self).count() + batch.rows,
    {
        let ghost start = self.stream();
        let ghost rows = rows_of(*batch);
        let mut r: usize = 0;
        assert(start + body_v1(rows.take(0)) =~= start);
        while r < batch.rows
            invariant
                r <= batch.rows,
                rows == rows_of(*batch),
                readable(*batch, self.columns as nat),
                self.columns == old(self).columns,
                self.rows == old(self).rows,
                self.stream() == start + body_v1(rows.take(r as int)),
            decreases batch.rows - r,
        {
            let ghost before = self.stream();
            let mut c: usize = 0;
            assert(before + row_v1(rows[r as int], 0) =~= before);
            while c < self.columns
                invariant
                    c <= self.columns,
                    r < batch.rows,
                    rows == rows_of(*batch),
                    readable(*batch, self.columns as nat),
                    self.columns == old(self).columns,
                    self.rows == old(self).rows,
                    self.stream() == before + row_v1(rows[r as int], c as nat),
                decreases self.columns - c,
            {
                let column = &batch.columns[c];
                assert(encodable(item_of(batch.columns@[c as int]@[r as int])));
                update_v1(&mut self.hasher, c, &column[r]);
                c = c + 1;
                assert(self.stream() =~= before + row_v1(rows[r as int], c as nat));
            }
            proof {
                let now = rows.take(r + 1);
                assert(now.drop_last() =~= rows.take(r as int));
                assert(now.last() == rows[r as int]);
                assert(self.stream() =~= start + body_v1(now));
            }
            r = r + 1;
        }
        assert(rows.take(batch.rows as int) =~= rows);
        self.rows = self.rows + batch.rows as u64;
    }

    /// The fingerprint of all rows.
    pub fn finish(self) -> (r: Fingerprint)
        ensures
            r.spec_version() == FingerprintVersion::V1,
            r.bytes() == blake3_digest(self.stream()),
            r.spec_rows() == self.count(),
    {
        Fingerprint::new(FingerprintVersion::V1, hasher_finish(&self.hasher), self.rows)
    }
}

/// Appends the name, display type and nullability of a field.
fn push_schema_field(out: &mut Vec<u8>, field: &Field)
    ensures
        final(out)@ == old(out)@ + utf8("pf-schema-field-v1\0"@) + prefixed(utf8(field.name@))
            + prefixed(utf8(field.type_text@)) + seq![
            if field.nullable {
                1u8
            } else {
                0u8
            },
        ],
{
    push_all(out, "pf-schema-field-v1\0".as_bytes());
    push_prefixed(out, field.name.as_str().as_bytes());
    push_prefixed(out, field.type_text.as_str().as_bytes());
    out.push(if field.nullable {
        1
    } else {
        0
    });
    assert(out@ =~= old(out)@ + utf8("pf-schema-field-v1\0"@) + prefixed(utf8(field.name@))
        + prefixed(utf8(field.type_text@)) + seq![
        if field.nullable {
            1u8
        } else {
            0u8
        },
    ]);
}

/// The number of rows in a list of batches.
pub open spec fn row_total(batches: Seq<Batch>) -> nat
    decreases batches.len(),
{
    if batches.len() == 0 {
        0
    } else {
        row_total(batches.drop_last()) + batches.last().rows as nat
    }
}

/// Row totals grow with every batch.
pub proof fn row_total_grows(batches: Seq<Batch>, n: int)
    requires
        0 <= n <= batches.len(),
    ensures
        row_total(batches.take(n)) <= row_total(batches),
    decreases batches.len() - n,
{
    if n < batches.len() {
        row_total_grows(batches, n + 1);
        assert(batches.take(n + 1).drop_last() =~= batches.take(n));
    } else {
        assert(batches.take(n) =~= batches);
    }
}

/// The version 1 fingerprint of a dataset.
pub fn fingerprint_v1(schema: &Schema, batches: &Vec<Batch>) -> (r: Result<
    Fingerprint,
    ProofFrameError,
>)
    requires
        forall|i: int|
            0 <= i < batches@.len() ==> readable(#[trigger] batches@[i], schema.fields@.len()),
        row_total(batches@) <= u64::MAX,
    ensures
        match unencodable_field(schema.fields@, schema.fields@.len()) {
            None => r matches Ok(f) && f.spec_version() == FingerprintVersion::V1 && f.bytes()
                == blake3_digest(header_v1(*schema) + body_v1(all_rows(batches@)))
                && f.spec_rows() == row_total(batches@),
            Some(t) => r matches Err(e) && e@ == ErrorView::UnsupportedType(t),
        },
{
    let mut state = match V1FingerprintState::new(schema) {
        Ok(s) => s,
        Err(e) => return Err(e),
    };
    let mut i: usize = 0;
    assert(header_v1(*schema) + body_v1(all_rows(batches@.take(0))) =~= header_v1(*schema));
    while i < batches.len()
        invariant
            i <= batches@.len(),
            state.width() == schema.fields@.len(),
            forall|k: int|
                0 <= k < batches@.len() ==> readable(
                    #[trigger] batches@[k],
                    schema.fields@.len(),
                ),
            state.stream() == header_v1(*schema) + body_v1(all_rows(batches@.take(i as int))),
            state.count() == row_total(batches@.take(i as int)),
            row_total(batches@) <= u64::MAX,
        decreases batches@.len() - i,
    {
        proof {
            let now = batches@.take(i + 1);
            assert(now.drop_last() =~= batches@.take(i as int));
            row_total_grows(batches@, i + 1);
            body_v1_ignores_batch_boundaries(
                all_rows(batches@.take(i as int)),
                rows_of(batches@[i as int]),
            );
        }
        state.update(&batches[i]);
        i = i + 1;
        assert(state.stream() =~= header_v1(*schema) + body_v1(
            all_rows(batches@.take(i as int)),
        ));
    }
    assert(batches@.take(batches@.len() as int) =~= batches@);
    Ok(state.finish())
}

/// The value of a metadata key.
pub open spec fn lookup(metadata: Seq<(String, String)>, key: Seq<char>) -> Option<Seq<char>>
    decreases metadata.len(),
{
    if metadata.len() == 0 {
        None
    } else if metadata[0].0@ == key {
        Some(metadata[0].1@)
    } else {
        lookup(metadata.drop_first(), key)
    }
}

/// A byte string that may be absent: a flag, and the bytes behind their length.
pub open spec fn optional_bytes(value: Option<Seq<char>>) -> Seq<u8> {
    match value {
        Some(v) => seq![1u8] + prefixed(utf8(v)),
        None => seq![0u8],
    }
}

/// The number of selected keys, then the first `n` of them with their values.
pub open spec fn metadata_v2(
    metadata: Seq<(String, String)>,
    keys: Seq<Seq<char>>,
    n: nat,
) -> Seq<u8>
    decreases n,
{
    if n == 0 {
        le(keys.len(), 8)
    } else {
        metadata_v2(metadata, keys, (n - 1) as nat) + prefixed(utf8(keys[n - 1]))
            + optional_bytes(lookup(metadata, keys[n - 1]))
    }
}

/// The tag of a timestamp unit.
pub open spec fn unit_tag(unit: TimeUnit) -> u8 {
    match unit {
        TimeUnit::Second => 1,
        TimeUnit::Millisecond => 2,
        TimeUnit::Microsecond => 3,
        TimeUnit::Nanosecond => 4,
    }
}

/// The tag of a type without parameters in version 2.
pub open spec fn plain_tag(data_type: DataType) -> Option<u8> {
    match data_type {
        DataType::Int8 => Some(1),
        DataType::Int16 => Some(2),
        DataType::Int32 => Some(3),
        DataType::Int64 => Some(4),
        DataType::UInt8 => Some(5),
        DataType::UInt16 => Some(6),
        DataType::UInt32 => Some(7),
        DataType::UInt64 => Some(8),
        DataType::Float32 => Some(9),
        DataType::Float64 => Some(10),
        DataType::Date32 => Some(11),
        DataType::Date64 => Some(12),
        DataType::Boolean => Some(18),
        DataType::Utf8 => Some(19),
        DataType::LargeUtf8 => Some(20),
        DataType::Binary => Some(21),
        DataType::LargeBinary => Some(22),
        _ => None,
    }
}

/// The bytes of a type in version 2, or the display text of the first type in it that
/// version 2 has no bytes for.
pub open spec fn type_v2(data_type: DataType, shown: Seq<char>, keys: Seq<Seq<char>>) -> Result<
    Seq<u8>,
    Seq<char>,
>
    decreases data_type, 0nat,
{
    match data_type {
        DataType::Timestamp(unit, zone) => Ok(
            seq![13u8, unit_tag(unit)] + optional_bytes(opt_text(zone)),
        ),
        DataType::Decimal128(precision, scale) => Ok(
            seq![17u8, precision] + le(twos(scale as int), 1),
        ),
        DataType::List(f) => match field_v2(0, *f, keys) {
            Ok(b) => Ok(seq![23u8] + b),
            Err(t) => Err(t),
        },
        DataType::LargeList(f) => match field_v2(0, *f, keys) {
            Ok(b) => Ok(seq![24u8] + b),
            Err(t) => Err(t),
        },
        DataType::FixedSizeList(f, length) => match field_v2(0, *f, keys) {
            Ok(b) => Ok(seq![25u8] + le(twos(length as int), 4) + b),
            Err(t) => Err(t),
        },
        DataType::Struct(fields) => match fields_v2(fields@, fields@.len(), keys) {
            Ok(b) => Ok(seq![26u8] + le(fields@.len(), 8) + b),
            Err(t) => Err(t),
        },
        DataType::Entries(f, sorted) => match field_v2(0, *f, keys) {
            Ok(b) => Ok(seq![27u8, if sorted { 1u8 } else { 0u8 }] + b),
            Err(t) => Err(t),
        },
        _ => match plain_tag(data_type) {
            Some(tag) => Ok(seq![tag]),
            None => Err(shown),
        },
    }
}

/// The bytes of a field in version 2.
pub open spec fn field_v2(ordinal: nat, field: Field, keys: Seq<Seq<char>>) -> Result<
    Seq<u8>,
    Seq<char>,
>
    decreases field, 0nat,
{
    match type_v2(field.data_type, field.type_text@, keys) {
        Ok(b) => Ok(field_head_v2(ordinal, field, keys) + b),
        Err(t) => Err(t),
    }
}

/// The bytes of a field in version 2 before those of its type.
pub open spec fn field_head_v2(ordinal: nat, field: Field, keys: Seq<Seq<char>>) -> Seq<u8> {
    utf8("pf-field-v2\0"@) + le(ordinal, 8) + prefixed(utf8(field.name@)) + seq![
        if field.nullable {
            1u8
        } else {
            0u8
        },
    ] + metadata_v2(field.metadata@, keys, keys.len())
}

/// The bytes of the first `n` fields of a list in version 2.
pub open spec fn fields_v2(fields: Seq<Field>, n: nat, keys: Seq<Seq<char>>) -> Result<
    Seq<u8>,
    Seq<char>,
>
    decreases fields, n,
{
    if n == 0 || n > fields.len() {
        Ok(Seq::empty())
    } else {
        match fields_v2(fields, (n - 1) as nat, keys) {
            Ok(b) => match field_v2((n - 1) as nat, fields[n - 1], keys) {
                Ok(more) => Ok(b + more),
                Err(t) => Err(t),
            },
            Err(t) => Err(t),
        }
    }
}

/// The bytes of a schema in version 2.
pub open spec fn schema_v2(schema: Schema, keys: Seq<Seq<char>>) -> Result<Seq<u8>, Seq<char>> {
    match fields_v2(schema.fields@, schema.fields@.len(), keys) {
        Ok(b) => Ok(
            utf8("pf-schema-v2\0"@) + metadata_v2(schema.metadata@, keys, keys.len()) + le(
                schema.fields@.len(),
                8,
            ) + b,
        ),
        Err(t) => Err(t),
    }
}

fn find_metadata<'a>(metadata: &'a Vec<(String, String)>, key: &str) -> (r: Option<&'a str>)
    ensures
        lookup(metadata@, key@) == (match r {
            Some(v) => Some(v@),
            None => None,
        }),
{
    let mut i: usize = 0;
    assert(metadata@.skip(0) =~= metadata@);
    while i < metadata.len()
        invariant
            i <= metadata@.len(),
            lookup(metadata@, key@) == lookup(metadata@.skip(i as int), key@),
        decreases metadata@.len() - i,
    {
        assert(metadata@.skip(i as int)[0] == metadata@[i as int]);
        if str_eq(metadata[i].0.as_str(), key) {
            return Some(metadata[i].1.as_str());
        }
        assert(metadata@.skip(i as int).drop_first() =~= metadata@.skip(i + 1));
        i = i + 1;
    }
    None
}

fn push_optional(out: &mut Vec<u8>, value: Option<&str>)
    ensures
        final(out)@ == old(out)@ + optional_bytes(
            match value {
                Some(v) => Some(v@),
                None => None,
            },
        ),
{
    match value {
        Some(v) => {
            out.push(1);
            push_prefixed(out, v.as_bytes());
            assert(out@ =~= old(out)@ + (seq![1u8] + prefixed(utf8(v@))));
        },
        None => {
            out.push(0);
            assert(out@ =~= old(out)@ + seq![0u8]);
        },
    }
}

fn push_metadata(out: &mut Vec<u8>, metadata: &Vec<(String, String)>, keys: &Vec<String>)
    ensures
        final(out)@ == old(out)@ + metadata_v2(metadata@, texts(keys@), keys@.len()),
{
    let ghost names = texts(keys@);
    push_le(out, keys.len() as u128, 8);
    let mut i: usize = 0;
    while i < keys.len()
        invariant
            i <= keys@.len(),
            names == texts(keys@),
            out@ == old(out)@ + metadata_v2(metadata@, names, i as nat),
        decreases keys@.len() - i,
    {
        let key = keys[i].as_str();
        assert(names[i as int] == keys@[i as int]@);
        push_prefixed(out, key.as_bytes());
        push_optional(out, find_metadata(metadata, key));
        i = i + 1;
        assert(out@ =~= old(out)@ + metadata_v2(metadata@, names, i as nat));
    }
}

fn time_unit_tag(unit: TimeUnit) -> (r: u8)
    ensures
        r == unit_tag(unit),
{
    match unit {
        TimeUnit::Second => 1,
        TimeUnit::Millisecond => 2,
        TimeUnit::Microsecond => 3,
        TimeUnit::Nanosecond => 4,
    }
}

fn plain_type_tag(data_type: &DataType) -> (r: Option<u8>)
    ensures
        r == plain_tag(*data_type),
{
    match data_type {
        DataType::Int8 => Some(1),
        DataType::Int16 => Some(2),
        DataType::Int32 => Some(3),
        DataType::Int64 => Some(4),
        DataType::UInt8 => Some(5),
        DataType::UInt16 => Some(6),
        DataType::UInt32 => Some(7),
        DataType::UInt64 => Some(8),
        DataType::Float32 => Some(9),
        DataType::Float64 => Some(10),
        DataType::Date32 => Some(11),
        DataType::Date64 => Some(12),
        DataType::Boolean => Some(18),
        DataType::Utf8 => Some(19),
        DataType::LargeUtf8 => Some(20),
        DataType::Binary => Some(21),
        DataType::LargeBinary => Some(22),
        _ => None,
    }
}

/// Appends the version 2 bytes of a type.
pub fn update_data_type(
    out: &mut Vec<u8>,
    data_type: &DataType,
    shown: &str,
    keys: &Vec<String>,
) -> (r: Result<(), ProofFrameError>)
    ensures
        match type_v2(*data_type, shown@, texts(keys@)) {
            Ok(b) => r is Ok && final(out)@ == old(out)@ + b,
            Err(t) => r matches Err(e) && e@ == ErrorView::UnsupportedType(t),
        },
    decreases *data_type, 0nat,
{
    match data_type {
        DataType::Timestamp(unit, zone) => {
            out.push(13);
            out.push(time_unit_tag(*unit));
            match zone {
                Some(z) => push_optional(out, Some(z.as_str())),
                None => push_optional(out, None),
            }
            assert(out@ =~= old(out)@ + (seq![13u8, unit_tag(*unit)] + optional_bytes(
                opt_text(*zone),
            )));
            Ok(())
        },
        DataType::Decimal128(precision, scale) => {
            out.push(17);
            out.push(*precision);
            push_le_signed(out, *scale as i128, 1);
            assert(out@ =~= old(out)@ + (seq![17u8, *precision] + le(twos(*scale as int), 1)));
            Ok(())
        },
        DataType::List(f) => {
            out.push(23);
            let r = update_field(out, 0, f, keys);
            proof {
                if let Ok(b) = field_v2(0, **f, texts(keys@)) {
                    assert(out@ =~= old(out)@ + (seq![23u8] + b));
                }
            }
            r
        },
        DataType::LargeList(f) => {
            out.push(24);
            let r = update_field(out, 0, f, keys);
            proof {
                if let Ok(b) = field_v2(0, **f, texts(keys@)) {
                    assert(out@ =~= old(out)@ + (seq![24u8] + b));
                }
            }
            r
        },
        DataType::FixedSizeList(f, length) => {
            out.push(25);
            push_le_signed(out, *length as i128, 4);
            let r = update_field(out, 0, f, keys);
            proof {
                if let Ok(b) = field_v2(0, **f, texts(keys@)) {
                    assert(out@ =~= old(out)@ + (seq![25u8] + le(twos(*length as int), 4) + b));
                }
            }
            r
        },
        DataType::Struct(fields) => {
            out.push(26);
            push_le(out, fields.len() as u128, 8);
            let r = update_fields(out, fields, fields.len(), keys);
            proof {
                if let Ok(b) = fields_v2(fields@, fields@.len(), texts(keys@)) {
                    assert(out@ =~= old(out)@ + (seq![26u8] + le(fields@.len(), 8) + b));
                }
            }
            r
        },
        DataType::Entries(f, sorted) => {
            out.push(27);
            out.push(if *sorted {
                1
            } else {
                0
            });
            let r = update_field(out, 0, f, keys);
            proof {
                if let Ok(b) = field_v2(0, **f, texts(keys@)) {
                    assert(out@ =~= old(out)@ + (seq![27u8, if *sorted { 1u8 } else { 0u8 }] + b));
                }
            }
            r
        },
        _ => match plain_type_tag(data_type) {
            Some(tag) => {
                out.push(tag);
                assert(out@ =~= old(out)@ + seq![tag]);
                Ok(())
            },
            None => Err(ProofFrameError::UnsupportedType(text(shown))),
        },
    }
}

/// Appends the version 2 bytes of a field.
pub fn update_field(out: &mut Vec<u8>, ordinal: usize, field: &Field, keys: &Vec<String>) -> (r:
    Result<(), ProofFrameError>)
    ensures
        match field_v2(ordinal as nat, *field, texts(keys@)) {
            Ok(b) => r is Ok && final(out)@ == old(out)@ + b,
            Err(t) => r matches Err(e) && e@ == ErrorView::UnsupportedType(t),
        },
    decreases *field, 0nat,
{
    push_all(out, "pf-field-v2\0".as_bytes());
    push_le(out, ordinal as u128, 8);
    push_prefixed(out, field.name.as_str().as_bytes());
    out.push(if field.nullable {
        1
    } else {
        0
    });
    push_metadata(out, &field.metadata, keys);
    assert(out@ =~= old(out)@ + field_head_v2(ordinal as nat, *field, texts(keys@)));
    let r = update_data_type(out, &field.data_type, field.type_text.as_str(), keys);
    proof {
        if let Ok(b) = type_v2(field.data_type, field.type_text@, texts(keys@)) {
            assert(out@ =~= old(out)@ + (field_head_v2(ordinal as nat, *field, texts(keys@)) + b));
        }
    }
    r
}

fn update_fields(out: &mut Vec<u8>, fields: &Vec<Field>, n: usize, keys: &Vec<String>) -> (r:
    Result<(), ProofFrameError>)
    requires
        n <= fields@.len(),
    ensures
        match fields_v2(fields@, n as nat, texts(keys@)) {
            Ok(b) => r is Ok && final(out)@ == old(out)@ + b,
            Err(t) => r matches Err(e) && e@ == ErrorView::UnsupportedType(t),
        },
    decreases fields@, n as nat,
{
    if n == 0 {
        assert(out@ =~= old(out)@ + Seq::<u8>::empty());
        return Ok(());
    }
    match update_fields(out, fields, n - 1, keys) {
        Err(e) => Err(e),
        Ok(()) => {
            let ghost so_far = out@;
            let r = update_field(out, n - 1, &fields[n - 1], keys);
            proof {
                if let Ok(b) = fields_v2(fields@, (n - 1) as nat, texts(keys@)) {
                    if let Ok(more) = field_v2((n - 1) as nat, fields@[n - 1], texts(keys@)) {
                        assert(out@ =~= old(out)@ + (b + more));
                    }
                }
            }
            r
        },
    }
}

/// The digest of a schema in version 2.
pub fn fingerprint_schema(schema: &Schema, keys: &Vec<String>) -> (r: Result<
    [u8; 32],
    ProofFrameError,
>)
    ensures
        match schema_v2(*schema, texts(keys@)) {
            Ok(b) => r matches Ok(d) && d@ == blake3_digest(b),
            Err(t) => r matches Err(e) && e@ == ErrorView::UnsupportedType(t),
        },
{
    let mut out: Vec<u8> = Vec::new();
    push_all(&mut out, "pf-schema-v2\0".as_bytes());
    push_metadata(&mut out, &schema.metadata, keys);
    push_le(&mut out, schema.fields.len() as u128, 8);
    let ghost head = out@;
    match update_fields(&mut out, &schema.fields, schema.fields.len(), keys) {
        Err(e) => Err(e),
        Ok(()) => {
            proof {
                let b = fields_v2(schema.fields@, schema.fields@.len(), texts(keys@))->Ok_0;
                assert(out@ =~= utf8("pf-schema-v2\0"@) + metadata_v2(
                    schema.metadata@,
                    texts(keys@),
                    keys@.len(),
                ) + le(schema.fields@.len(), 8) + b);
            }
            Ok(digest_of(out.as_slice()))
        },
    }
}

/// One cell in version 2: a presence flag, then the bytes of a fixed-width value, a
/// length and bytes, or the canonical bytes of a nested value behind their length.
pub open spec fn cell_v2(item: Item) -> Seq<u8> {
    match item {
        Item::Null => seq![0u8],
        Item::Scalar(_, bytes) => seq![1u8] + bytes,
        Item::Bytes(_, bytes) => seq![1u8] + prefixed(bytes),
        _ => seq![1u8] + prefixed(encoded(item)),
    }
}

/// The cells of a column in version 2.
pub open spec fn cells_v2(items: Seq<Item>) -> Seq<u8>
    decreases items.len(),
{
    if items.len() == 0 {
        Seq::empty()
    } else {
        cells_v2(items.drop_last()) + cell_v2(items.last())
    }
}

/// A column of a dataset, from its first row to its last.
pub open spec fn column_of(rows: Seq<Seq<Item>>, column: int) -> Seq<Item> {
    rows.map_values(|row: Seq<Item>| row[column])
}

/// The bytes of a column in version 2.
pub open spec fn column_v2(column: nat, items: Seq<Item>) -> Seq<u8> {
    utf8("pf-fp-v2-column\0"@) + le(column, 8) + cells_v2(items)
}

/// The digests of the first `n` columns, each behind its number.
pub open spec fn column_digests(streams: Seq<Seq<u8>>, n: nat) -> Seq<u8>
    decreases n,
{
    if n == 0 {
        Seq::empty()
    } else {
        column_digests(streams, (n - 1) as nat) + le((n - 1) as nat, 8) + blake3_digest(
            streams[n - 1],
        )
    }
}

/// The bytes of a whole dataset in version 2.
pub open spec fn root_v2(schema_digest: Seq<u8>, rows: nat, streams: Seq<Seq<u8>>) -> Seq<u8> {
    utf8("pf-fp-v2\0"@) + schema_digest + le(rows, 8) + le(streams.len(), 8) + column_digests(
        streams,
        streams.len(),
    )
}

/// Cells read in two parts give the bytes of the cells read at once: where a reader puts
/// the bounds of its batches changes no fingerprint of version 2.
pub proof fn cells_v2_ignore_batch_boundaries(a: Seq<Item>, b: Seq<Item>)
    ensures
        cells_v2(a + b) == cells_v2(a) + cells_v2(b),
    decreases b.len(),
{
    if b.len() == 0 {
        assert(a + b =~= a);
        assert(cells_v2(a) + cells_v2(b) =~= cells_v2(a));
    } else {
        cells_v2_ignore_batch_boundaries(a, b.drop_last());
        assert((a + b).drop_last() =~= a + b.drop_last());
        assert(cells_v2(a + b) =~= cells_v2(a) + cells_v2(b));
    }
}

/// Adds a cell to the hasher of its column.
pub fn update_v2(hasher: &mut blake3::Hasher, cell: &Cell)
    requires
        encodable(item_of(*cell)),
    ensures
        absorbed(*final(hasher)) == absorbed(*old(hasher)) + cell_v2(item_of(*cell)),
{
    let mut value: Vec<u8> = Vec::new();
    let done = write_v1_value(cell, &mut value);
    let ghost item = item_of(*cell);
    assert(value@ =~= encoded(item));
    let mut out: Vec<u8> = Vec::new();
    match cell {
        Cell::Null => {
            out.push(0);
        },
        Cell::List(_)
        | Cell::LargeList(_)
        | Cell::FixedSizeList(_)
        | Cell::Struct(_)
        | Cell::Entries(_)
        | Cell::Other => {
            out.push(1);
            push_prefixed(&mut out, value.as_slice());
        },
        _ => {
            out.push(1);
            let n: usize = value.len();
            assert(value@.len() > 0);
            let tail = crate::bytes::slice_of(value.as_slice(), 1, n);
            push_all(&mut out, tail.as_slice());
        },
    }
    assert(out@ =~= cell_v2(item));
    feed(hasher, out.as_slice());
}

/// A version 2 fingerprint in the making: one hasher for each column.
pub struct V2FingerprintState {
    schema_digest: [u8; 32],
    columns: Vec<blake3::Hasher>,
    rows: u64,
}

impl V2FingerprintState {
    /// The digest of the schema.
    pub closed spec fn schema_bytes(&self) -> Seq<u8> {
        self.schema_digest@
    }

    /// The bytes that go into the digest of each column so far.
    pub closed spec fn streams(&self) -> Seq<Seq<u8>> {
        self.columns@.map_values(|h: blake3::Hasher| absorbed(h))
    }

    /// The number of rows so far.
    pub closed spec fn count(&self) -> u64 {
        self.rows
    }

    /// Starts the fingerprint of a dataset with a schema.
    pub fn new(schema: &Schema, options: &FingerprintOptions) -> (r: Result<Self, ProofFrameError>)
        ensures
            match unencodable_field(schema.fields@, schema.fields@.len()) {
                Some(t) => r matches Err(e) && e@ == ErrorView::UnsupportedType(t),
                None => match schema_v2(*schema, options.keys()) {
                    Err(t) => r matches Err(e) && e@ == ErrorView::UnsupportedType(t),
                    Ok(b) => r matches Ok(s) && s.schema_bytes() == blake3_digest(b) && s.count()
                        == 0 && s.streams().len() == schema.fields@.len() && forall|c: int|
                        0 <= c < schema.fields@.len() ==> #[trigger] s.streams()[c] == column_v2(
                            c as nat,
                            Seq::empty(),
                        ),
                },
            },
    {
        match check_fields(&schema.fields, schema.fields.len()) {
            Ok(()) => {},
            Err(e) => return Err(e),
        }
        let schema_digest = match fingerprint_schema(schema, options.metadata_keys()) {
            Ok(d) => d,
            Err(e) => return Err(e),
        };
        let mut columns: Vec<blake3::Hasher> = Vec::new();
        let mut c: usize = 0;
        while c < schema.fields.len()
            invariant
                c <= schema.fields@.len(),
                columns@.len() == c,
                forall|k: int|
                    0 <= k < c ==> absorbed(#[trigger] columns@[k]) == column_v2(
                        k as nat,
                        Seq::empty(),
                    ),
            decreases schema.fields@.len() - c,
        {
            let mut hasher = hasher_new();
            feed(&mut hasher, "pf-fp-v2-column\0".as_bytes());
            let mut number: Vec<u8> = Vec::new();
            push_le(&mut number, c as u128, 8);
            feed(&mut hasher, number.as_slice());
            assert(number@ =~= le(c as nat, 8));
            assert(absorbed(hasher) =~= column_v2(c as nat, Seq::empty()));
            columns.push(hasher);
            c = c + 1;
        }
        Ok(V2FingerprintState { schema_digest, columns, rows: 0 })
    }

    /// Adds the rows of a batch.
    pub fn update(&mut self, batch: &Batch)
        requires
            readable(*batch, old(self).streams().len()),
            old(self).count() + batch.rows <= u64::MAX,
        ensures
            final(self).schema_bytes() == old(self).schema_bytes(),
            final(self).count() == old(self).count() + batch.rows,
            final(self).streams().len() == old(self).streams().len(),
            forall|c: int|
                0 <= c < old(self).streams().len() ==> #[trigger] final(self).streams()[c] == old(
                    self,
                ).streams()[c] + cells_v2(column_of(rows_of(*batch), c)),
    {
        let ghost start = self.streams();
        let ghost rows = rows_of(*batch);
        let mut c: usize = 0;
        while c < self.columns.len()
            invariant
                c <= self.columns@.len(),
                self.columns@.len() == start.len(),
                start == old(self).streams(),
                self.schema_digest == old(self).schema_digest,
                self.rows == old(self).rows,
                rows == rows_of(*batch),
                readable(*batch, start.len()),
                forall|k: int|
                    0 <= k < c ==> absorbed(#[trigger] self.columns@[k]) == start[k] + cells_v2(
                        column_of(rows, k),
                    ),
                forall|k: int|
                    c <= k < start.len() ==> absorbed(#[trigger] self.columns@[k]) == start[k],
            decreases self.columns@.len() - c,
        {
            let column = &batch.columns[c];
            let ghost items = column_of(rows, c as int);
            let ghost others = self.columns@;
            let mut r: usize = 0;
            assert(start[c as int] + cells_v2(items.take(0)) =~= start[c as int]);
            while r < batch.rows
                invariant
                    r <= batch.rows,
                    c < self.columns@.len(),
                    self.columns@.len() == start.len(),
                    others.len() == start.len(),
                    self.schema_digest == old(self).schema_digest,
                    self.rows == old(self).rows,
                    rows == rows_of(*batch),
                    items == column_of(rows, c as int),
                    readable(*batch, start.len()),
                    column@ == batch.columns@[c as int]@,
                    absorbed(self.columns@[c as int]) == start[c as int] + cells_v2(
                        items.take(r as int),
                    ),
                    forall|k: int|
                        0 <= k < start.len() && k != c ==> #[trigger] self.columns@[k]
                            == others[k],
                decreases batch.rows - r,
            {
                assert(encodable(item_of(batch.columns@[c as int]@[r as int])));
                update_v2(&mut self.columns[c], &column[r]);
                proof {
                    let now = items.take(r + 1);
                    assert(now.drop_last() =~= items.take(r as int));
                    assert(now.last() == item_of(column@[r as int]));
                    assert(absorbed(self.columns@[c as int]) =~= start[c as int] + cells_v2(now));
                }
                r = r + 1;
            }
            assert(items.take(batch.rows as int) =~= items);
            c = c + 1;
        }
        self.rows = self.rows + batch.rows as u64;
    }

    /// The fingerprint of all rows.
    pub fn finish(self) -> (r: Fingerprint)
        ensures
            r.spec_version() == FingerprintVersion::V2,
            r.bytes() == blake3_digest(
                root_v2(self.schema_bytes(), self.count() as nat, self.streams()),
            ),
            r.spec_rows() == self.count(),
            self.schema_bytes().len() == 32,
            forall|c: int|
                0 <= c < self.streams().len() ==> blake3_digest(#[trigger] self.streams()[c]).len()
                    == 32,
    {
        let ghost streams = self.streams();
        let mut out: Vec<u8> = Vec::new();
        push_all(&mut out, "pf-fp-v2\0".as_bytes());
        push_all(&mut out, self.schema_digest.as_slice());
        push_le(&mut out, self.rows as u128, 8);
        push_le(&mut out, self.columns.len() as u128, 8);
        let ghost head = out@;
        let mut c: usize = 0;
        assert(out@ =~= head + column_digests(streams, 0));
        while c < self.columns.len()
            invariant
                c <= self.columns@.len(),
                streams == self.streams(),
                out@ == head + column_digests(streams, c as nat),
                forall|k: int| 0 <= k < c ==> blake3_digest(#[trigger] streams[k]).len() == 32,
            decreases self.columns@.len() - c,
        {
            push_le(&mut out, c as u128, 8);
            let digest = hasher_finish(&self.columns[c]);
            push_all(&mut out, digest.as_slice());
            assert(streams[c as int] == absorbed(self.columns@[c as int]));
            c = c + 1;
            assert(out@ =~= head + column_digests(streams, c as nat));
        }
        assert(out@ =~= root_v2(self.schema_bytes(), self.count() as nat, streams));
        Fingerprint::new(FingerprintVersion::V2, digest_of(out.as_slice()), self.rows)
    }
}

/// The version 2 streams of the columns of a dataset.
pub open spec fn streams_v2(columns: nat, rows: Seq<Seq<Item>>) -> Seq<Seq<u8>> {
    Seq::new(columns, |c: int| column_v2(c as nat, column_of(rows, c)))
}

/// The version 2 fingerprint of a dataset.
pub fn fingerprint_v2(schema: &Schema, batches: &Vec<Batch>, options: &FingerprintOptions) -> (r:
    Result<Fingerprint, ProofFrameError>)
    requires
        forall|i: int|
            0 <= i < batches@.len() ==> readable(#[trigger] batches@[i], schema.fields@.len()),
        row_total(batches@) <= u64::MAX,
    ensures
        match unencodable_field(schema.fields@, schema.fields@.len()) {
            Some(t) => r matches Err(e) && e@ == ErrorView::UnsupportedType(t),
            None => match schema_v2(*schema, options.keys()) {
                Err(t) => r matches Err(e) && e@ == ErrorView::UnsupportedType(t),
                Ok(b) => r matches Ok(f) && f.spec_version() == FingerprintVersion::V2 && f.bytes()
                    == blake3_digest(
                    root_v2(
                        blake3_digest(b),
                        row_total(batches@),
                        streams_v2(schema.fields@.len(), all_rows(batches@)),
                    ),
                ) && f.spec_rows() == row_total(batches@) && blake3_digest(b).len() == 32 && forall|
                    c: int,
                |
                    0 <= c < schema.fields@.len() ==> blake3_digest(
                        #[trigger] streams_v2(schema.fields@.len(), all_rows(batches@))[c],
                    ).len() == 32,
            },
        },
{
    let mut state = match V2FingerprintState::new(schema, options) {
        Ok(s) => s,
        Err(e) => return Err(e),
    };
    let ghost width = schema.fields@.len();
    let ghost schema_digest = state.schema_bytes();
    let mut i: usize = 0;
    proof {
        let none = all_rows(batches@.take(0));
        assert forall|c: int| 0 <= c < width implies column_of(none, c) =~= Seq::<Item>::empty() by {}
        assert(state.streams() =~= streams_v2(width, none));
    }
    while i < batches.len()
        invariant
            i <= batches@.len(),
            width == schema.fields@.len(),
            state.schema_bytes() == schema_digest,
            forall|k: int|
                0 <= k < batches@.len() ==> readable(
                    #[trigger] batches@[k],
                    schema.fields@.len(),
                ),
            state.streams() == streams_v2(width, all_rows(batches@.take(i as int))),
            state.count() == row_total(batches@.take(i as int)),
            row_total(batches@) <= u64::MAX,
        decreases batches@.len() - i,
    {
        let ghost before = all_rows(batches@.take(i as int));
        let ghost added = rows_of(batches@[i as int]);
        proof {
            let now = batches@.take(i + 1);
            assert(now.drop_last() =~= batches@.take(i as int));
            row_total_grows(batches@, i + 1);
        }
        state.update(&batches[i]);
        proof {
            assert forall|c: int| 0 <= c < width implies #[trigger] state.streams()[c] =~= column_v2(
                c as nat,
                column_of(before + added, c),
            ) by {
                cells_v2_ignore_batch_boundaries(column_of(before, c), column_of(added, c));
                assert(column_of(before + added, c) =~= column_of(before, c) + column_of(
                    added,
                    c,
                ));
            }
            assert(state.streams() =~= streams_v2(width, before + added));
        }
        i = i + 1;
    }
    assert(batches@.take(batches@.len() as int) =~= batches@);
    Ok(state.finish())
}

} // verus!
