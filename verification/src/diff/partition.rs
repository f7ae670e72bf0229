//! Partitions of rows on temporary storage: written record by record, and read back whole
//! or not at all.

use crate::bytes::{
    from_le, from_le_round_trip, le, le_len, le_round_trip, push_all, push_le, read_le, slice_of, spans,
};
use crate::contract::ast::outcome;
use crate::diff::ledger::{sole, sole_ledger_stays, temp_refusal, TempLedger};
use crate::diff::record::{
    admitted, decode_record, decoded_record, encode_record, framed, record_bytes,
    record_reads_back, take_word, PartitionLimits, RowEntry, RowView, PARTITION_HEADER_BYTES,
};
use crate::digest::{absorbed, blake3_digest, digest_of, feed, hasher_finish, hasher_new};
use crate::error::{ErrorView, ProofFrameError};
use crate::resource::{charged, ResourceAccount, ResourceKind};
use crate::text::{bytes_eq, text, utf8};
use vstd::prelude::*;
use vstd::string::*;

verus! {

/// A row under its key.
pub type Keyed = (Seq<u8>, RowView);

/// The payload of a partition.
pub open spec fn payload_of(rows: Seq<Keyed>) -> Seq<u8>
    decreases rows.len(),
{
    if rows.len() == 0 {
        Seq::empty()
    } else {
        payload_of(rows.drop_last()) + framed(record_bytes(rows.last().0, rows.last().1))
    }
}

/// The header of a partition with a payload.
pub open spec fn partition_header(schema: Seq<u8>, records: nat, payload: Seq<u8>) -> Seq<u8> {
    utf8("PFPART02"@) + le(2, 2) + le(92, 2) + schema + le(records, 8) + le(payload.len(), 8)
        + blake3_digest(payload)
}

/// The bytes of a record behind its length, or the error of a row that has none.
pub open spec fn frame_error(key: Seq<u8>, entry: RowEntry) -> Option<ErrorView> {
    if entry.values@.len() > u32::MAX {
        Some(ErrorView::CorruptData("Diff row has more than u32 columns"@))
    } else if record_bytes(key, entry@).len() > u64::MAX - 8 {
        Some(ErrorView::CorruptData("Diff partition payload length overflowed"@))
    } else {
        None
    }
}

fn corrupt(message: &str) -> (r: ProofFrameError)
    ensures
        r@ == ErrorView::CorruptData(message@),
{
    ProofFrameError::CorruptData(text(message))
}

fn frame_record(key: &[u8], entry: &RowEntry) -> (r: Result<Vec<u8>, ProofFrameError>)
    ensures
        outcome(r, frame_error(key@, *entry)),
        r matches Ok(b) ==> b@ == framed(record_bytes(key@, entry@)) && b@.len() <= u64::MAX,
{
    let record = encode_record(key, entry)?;
    if record.len() as u64 > u64::MAX - 8 {
        return Err(corrupt("Diff partition payload length overflowed"));
    }
    let mut out: Vec<u8> = Vec::new();
    push_le(&mut out, record.len() as u128, 8);
    push_all(&mut out, record.as_slice());
    assert(out@ =~= framed(record@));
    assert(out.len() == out@.len());
    Ok(out)
}

/// A partition that is being written. The bytes go to storage as they come; the header
/// goes before them at the end.
pub struct PartitionWriter {
    schema_digest: [u8; 32],
    records: u64,
    payload_bytes: u64,
    hasher: blake3::Hasher,
}

impl PartitionWriter {
    /// The payload so far.
    pub closed spec fn payload(&self) -> Seq<u8> {
        absorbed(self.hasher)
    }

    /// The number of records so far.
    pub closed spec fn count(&self) -> u64 {
        self.records
    }

    /// The digest of the schema of the rows.
    pub closed spec fn schema(&self) -> Seq<u8> {
        self.schema_digest@
    }

    /// The writer counts the bytes of its payload.
    pub closed spec fn wf(&self) -> bool {
        self.payload_bytes == self.payload().len()
    }

    /// A partition without records.
    pub fn create(schema_digest: [u8; 32]) -> (r: Self)
        ensures
            r.wf(),
            r.payload() == Seq::<u8>::empty(),
            r.count() == 0,
            r.schema() == schema_digest@,
    {
        PartitionWriter { schema_digest, records: 0, payload_bytes: 0, hasher: hasher_new() }
    }

    /// The error of one more record.
    pub open spec fn write_error(
        self,
        key: Seq<u8>,
        entry: RowEntry,
        account: ResourceAccount,
        temp: TempLedger,
    ) -> Option<ErrorView> {
        let bytes = framed(record_bytes(key, entry@)).len();
        let refusal = temp_refusal(account, temp, bytes as u64);
        if frame_error(key, entry) is Some {
            frame_error(key, entry)
        } else if refusal is Some {
            refusal
        } else if self.count() == u64::MAX {
            Some(ErrorView::CorruptData("Diff partition record count overflowed"@))
        } else if self.payload().len() + bytes > u64::MAX {
            Some(ErrorView::CorruptData("Diff partition payload length overflowed"@))
        } else {
            None
        }
    }

    /// Adds a record: its bytes are to be stored behind those of the records before it.
    pub fn write_record(
        &mut self,
        key: &[u8],
        entry: &RowEntry,
        account: &mut ResourceAccount,
        temp: &mut TempLedger,
    ) -> (r: Result<Vec<u8>, ProofFrameError>)
        requires
            old(self).wf(),
            old(account).wf(),
            old(temp).at() < old(account).nodes().len(),
        ensures
            outcome(r, old(self).write_error(key@, *entry, *old(account), *old(temp))),
            final(account).wf(),
            final(account).spec_limits() == old(account).spec_limits(),
            final(account).nodes().len() == old(account).nodes().len(),
            final(temp).at() == old(temp).at(),
            sole(*old(account), *old(temp)) ==> sole(*final(account), *final(temp)),
            *final(account) == *old(account) || charged(
                old(account).nodes(),
                final(account).nodes(),
                old(temp).at(),
                ResourceKind::Temp,
                final(temp).taken() - old(temp).taken(),
            ),
            r matches Ok(bytes) ==> {
                &&& final(self).wf()
                &&& bytes@ == framed(record_bytes(key@, entry@))
                &&& final(self).payload() == old(self).payload() + bytes@
                &&& final(self).count() == old(self).count() + 1
                &&& final(self).schema() == old(self).schema()
                &&& final(temp).in_use() == old(temp).in_use() + bytes@.len()
            },
            frame_error(key@, *entry) is Some || temp_refusal(
                *old(account),
                *old(temp),
                framed(record_bytes(key@, entry@)).len() as u64,
            ) is Some ==> *final(self) == *old(self),
    {
        let bytes = frame_record(key, entry)?;
        let taken = temp.reserve_additional(account, bytes.len() as u64);
        proof {
            if sole(*old(account), *old(temp)) {
                sole_ledger_stays(
                    *old(account),
                    *account,
                    *old(temp),
                    *temp,
                    bytes@.len() as u64,
                    taken,
                );
            }
        }
        taken?;
        feed(&mut self.hasher, bytes.as_slice());
        match self.records.checked_add(1) {
            Some(n) => {
                self.records = n;
            },
            None => {
                return Err(corrupt("Diff partition record count overflowed"));
            },
        }
        match self.payload_bytes.checked_add(bytes.len() as u64) {
            Some(n) => {
                self.payload_bytes = n;
            },
            None => {
                return Err(corrupt("Diff partition payload length overflowed"));
            },
        }
        Ok(bytes)
    }

    /// The header of the partition.
    pub fn finish(self) -> (r: Vec<u8>)
        requires
            self.wf(),
        ensures
            r@ == partition_header(self.schema(), self.count() as nat, self.payload()),
            r@.len() == PARTITION_HEADER_BYTES,
    {
        let checksum = hasher_finish(&self.hasher);
        let mut out: Vec<u8> = Vec::new();
        push_all(&mut out, "PFPART02".as_bytes());
        push_le(&mut out, 2, 2);
        push_le(&mut out, 92, 2);
        push_all(&mut out, self.schema_digest.as_slice());
        push_le(&mut out, self.records as u128, 8);
        push_le(&mut out, self.payload_bytes as u128, 8);
        push_all(&mut out, checksum.as_slice());
        proof {
            magic_bytes();
            le_len(2, 2);
            le_len(92, 2);
            le_len(self.records as nat, 8);
            le_len(self.payload_bytes as nat, 8);
        }
        out
    }
}

/// The magic number has eight bytes.
proof fn magic_bytes()
    ensures
        utf8("PFPART02"@).len() == 8,
{
    reveal_strlit("PFPART02");
    vstd::utf8::is_ascii_chars_encode_utf8("PFPART02"@);
}

/// Why the bytes of a partition are not those that were written under a schema.
pub open spec fn file_error(bytes: Seq<u8>, schema: Seq<u8>) -> Option<Seq<char>> {
    if bytes.len() < 8 {
        Some("Diff partition is truncated"@)
    } else if bytes.take(8) != utf8("PFPART02"@) {
        Some("Diff partition magic is invalid"@)
    } else if bytes.len() < 10 {
        Some("Diff partition is truncated"@)
    } else if from_le(bytes.subrange(8, 10)) != 2 {
        Some("Diff partition version is unsupported"@)
    } else if bytes.len() < 12 {
        Some("Diff partition is truncated"@)
    } else if from_le(bytes.subrange(10, 12)) != 92 {
        Some("Diff partition header length is invalid"@)
    } else if bytes.len() < 92 {
        Some("Diff partition is truncated"@)
    } else if bytes.subrange(12, 44) != schema {
        Some("Diff partition schema digest is invalid"@)
    } else if 92 + from_le(bytes.subrange(52, 60)) > u64::MAX {
        Some("Diff partition file length overflowed"@)
    } else if bytes.len() != 92 + from_le(bytes.subrange(52, 60)) {
        Some("Diff partition file length is invalid"@)
    } else if blake3_digest(bytes.skip(92)) != bytes.subrange(60, 92) {
        Some("Diff partition payload checksum is invalid"@)
    } else {
        None
    }
}

/// The next row of a payload with `n` records left, and what stands behind it; nothing at
/// the end, or why there is none.
pub open spec fn next_row(p: Seq<u8>, n: nat, limits: PartitionLimits) -> Result<
    Option<(Keyed, Seq<u8>)>,
    Seq<char>,
> {
    if n == 0 {
        if p.len() != 0 {
            Err("Diff partition record count leaves payload bytes"@)
        } else {
            Ok(None)
        }
    } else {
        match take_word(p, 8) {
            Err(m) => Err(m),
            Ok((length, rest)) => if length > limits.max_record_bytes {
                Err("Diff partition record exceeds max_record_bytes"@)
            } else if length + 8 > u64::MAX {
                Err("Diff record framing overflowed"@)
            } else if length + 8 > p.len() {
                Err("Diff record crosses the partition payload boundary"@)
            } else {
                match decoded_record(rest.take(length as int), limits) {
                    Err(m) => Err(m),
                    Ok(row) => Ok(Some((row, rest.skip(length as int)))),
                }
            },
        }
    }
}

/// All rows of a payload with `n` records, or why it does not hold them.
pub open spec fn all_rows(p: Seq<u8>, n: nat, limits: PartitionLimits) -> Result<
    Seq<Keyed>,
    Seq<char>,
>
    decreases n,
{
    match next_row(p, n, limits) {
        Err(m) => Err(m),
        Ok(None) => Ok(Seq::empty()),
        Ok(Some((row, rest))) => if n == 0 {
            Ok(Seq::empty())
        } else {
            match all_rows(rest, (n - 1) as nat, limits) {
                Err(m) => Err(m),
                Ok(more) => Ok(seq![row] + more),
            }
        },
    }
}

/// A reader of a partition whose bytes were found whole.
pub struct PartitionReader<'a> {
    bytes: &'a [u8],
    place: usize,
    remaining_records: u64,
    limits: PartitionLimits,
}

impl<'a> PartitionReader<'a> {
    /// The reader stands within its bytes.
    pub closed spec fn wf(&self) -> bool {
        self.place <= self.bytes@.len()
    }

    /// The payload that is left.
    pub closed spec fn rest(&self) -> Seq<u8> {
        self.bytes@.skip(self.place as int)
    }

    /// The number of records that are left.
    pub closed spec fn left(&self) -> u64 {
        self.remaining_records
    }

    /// What the reader accepts.
    pub closed spec fn spec_limits(&self) -> PartitionLimits {
        self.limits
    }

    /// Opens a partition, if its bytes are those that were written under a schema.
    pub fn open(bytes: &'a [u8], expected_schema: &[u8; 32], limits: PartitionLimits) -> (r: Result<
        Self,
        ProofFrameError,
    >)
        ensures
            match file_error(bytes@, expected_schema@) {
                Some(m) => r matches Err(e) && e@ == ErrorView::CorruptData(m),
                None => {
                    &&& r matches Ok(reader)
                    &&& reader.wf()
                    &&& reader.rest() == bytes@.skip(92)
                    &&& reader.left() == from_le(bytes@.subrange(44, 52))
                    &&& reader.spec_limits() == limits
                },
            },
    {
        let size: usize = bytes.len();
        if size < 8 {
            return Err(corrupt("Diff partition is truncated"));
        }
        let magic = slice_of(bytes, 0, 8);
        assert(bytes@.take(8) =~= bytes@.subrange(0, 8));
        if !bytes_eq(magic.as_slice(), "PFPART02".as_bytes()) {
            return Err(corrupt("Diff partition magic is invalid"));
        }
        if size < 10 {
            return Err(corrupt("Diff partition is truncated"));
        }
        if read_le(bytes, 8, 2) != 2 {
            return Err(corrupt("Diff partition version is unsupported"));
        }
        if size < 12 {
            return Err(corrupt("Diff partition is truncated"));
        }
        if read_le(bytes, 10, 2) != 92 {
            return Err(corrupt("Diff partition header length is invalid"));
        }
        if size < 92 {
            return Err(corrupt("Diff partition is truncated"));
        }
        let schema = slice_of(bytes, 12, 44);
        if !bytes_eq(schema.as_slice(), expected_schema.as_slice()) {
            return Err(corrupt("Diff partition schema digest is invalid"));
        }
        let records: u64 = read_le(bytes, 44, 8);
        let payload_bytes: u64 = read_le(bytes, 52, 8);
        if payload_bytes > u64::MAX - 92 {
            return Err(corrupt("Diff partition file length overflowed"));
        }
        if size as u64 != 92 + payload_bytes {
            return Err(corrupt("Diff partition file length is invalid"));
        }
        let payload = slice_of(bytes, 92, size);
        assert(payload@ =~= bytes@.skip(92));
        let digest = digest_of(payload.as_slice());
        let checksum = slice_of(bytes, 60, 92);
        if !bytes_eq(digest.as_slice(), checksum.as_slice()) {
            return Err(corrupt("Diff partition payload checksum is invalid"));
        }
        Ok(PartitionReader { bytes, place: 92, remaining_records: records, limits })
    }

    /// The next row. The length of a record is held to its limit before anything is made of
    /// its bytes.
    pub fn next(&mut self) -> (r: Result<Option<(Vec<u8>, RowEntry)>, ProofFrameError>)
        requires
            old(self).wf(),
        ensures
            final(self).wf(),
            final(self).spec_limits() == old(self).spec_limits(),
            match next_row(old(self).rest(), old(self).left() as nat, old(self).spec_limits()) {
                Err(m) => r matches Err(e) && e@ == ErrorView::CorruptData(m),
                Ok(None) => r matches Ok(None) && *final(self) == *old(self),
                Ok(Some((row, rest))) => {
                    &&& r matches Ok(Some((key, entry)))
                    &&& (key@, entry@) == row
                    &&& final(self).rest() == rest
                    &&& final(self).left() == old(self).left() - 1
                },
            },
    {
        let size: usize = self.bytes.len();
        if self.remaining_records == 0 {
            if size != self.place {
                return Err(corrupt("Diff partition record count leaves payload bytes"));
            }
            return Ok(None);
        }
        if size - self.place < 8 {
            return Err(corrupt("Diff partition is truncated"));
        }
        let ghost p = self.rest();
        let length: u64 = read_le(self.bytes, self.place, 8);
        assert(p.take(8) =~= self.bytes@.subrange(self.place as int, self.place + 8));
        if length > self.limits.max_record_bytes {
            return Err(corrupt("Diff partition record exceeds max_record_bytes"));
        }
        if length > u64::MAX - 8 {
            return Err(corrupt("Diff record framing overflowed"));
        }
        if length + 8 > (size - self.place) as u64 {
            return Err(corrupt("Diff record crosses the partition payload boundary"));
        }
        let start: usize = self.place + 8;
        let end: usize = start + length as usize;
        let encoded = slice_of(self.bytes, start, end);
        proof {
            assert(encoded@ =~= p.skip(8).take(length as int));
            assert(p.skip(8).skip(length as int) =~= self.bytes@.skip(end as int));
        }
        let row = decode_record(encoded.as_slice(), self.limits)?;
        self.remaining_records = self.remaining_records - 1;
        self.place = end;
        Ok(Some(row))
    }
}

proof fn payload_front(rows: Seq<Keyed>)
    requires
        rows.len() > 0,
    ensures
        payload_of(rows) == framed(record_bytes(rows[0].0, rows[0].1)) + payload_of(
            rows.drop_first(),
        ),
    decreases rows.len(),
{
    if rows.len() == 1 {
        assert(rows.drop_last() =~= Seq::empty());
        assert(rows.drop_first() =~= Seq::empty());
        assert(payload_of(rows) =~= framed(record_bytes(rows[0].0, rows[0].1)) + payload_of(
            rows.drop_first(),
        ));
    } else {
        payload_front(rows.drop_last());
        assert(rows.drop_last().drop_first() =~= rows.drop_first().drop_last());
        assert(payload_of(rows) =~= framed(record_bytes(rows[0].0, rows[0].1)) + payload_of(
            rows.drop_first(),
        ));
    }
}

/// A row that a partition gives back: one within the limits, in a record within them.
pub open spec fn storable(row: Keyed, limits: PartitionLimits) -> bool {
    &&& admitted(row.0, row.1, limits)
    &&& record_bytes(row.0, row.1).len() <= limits.max_record_bytes
    &&& record_bytes(row.0, row.1).len() + 8 <= u64::MAX
}

proof fn next_row_of_written(row: Keyed, rest: Seq<u8>, n: nat, limits: PartitionLimits)
    requires
        n > 0,
        storable(row, limits),
    ensures
        next_row(framed(record_bytes(row.0, row.1)) + rest, n, limits) == Ok::<
            Option<(Keyed, Seq<u8>)>,
            Seq<char>,
        >(Some((row, rest))),
{
    let record = record_bytes(row.0, row.1);
    let p = framed(record) + rest;
    spans();
    le_round_trip(record.len(), 8);
    le_len(record.len(), 8);
    assert(p.take(8) =~= le(record.len(), 8));
    assert(p.skip(8) =~= record + rest);
    assert((record + rest).take(record.len() as int) =~= record);
    assert((record + rest).skip(record.len() as int) =~= rest);
    assert(take_word(p, 8) == Ok::<(nat, Seq<u8>), Seq<char>>((record.len(), record + rest)));
    record_reads_back(row.0, row.1, limits);
    assert(decoded_record(record, limits) == Ok::<Keyed, Seq<char>>(row));
}

/// A payload gives back the rows that were written to it, in their order.
#[verifier::spinoff_prover]
pub proof fn payload_reads_back(rows: Seq<Keyed>, limits: PartitionLimits)
    requires
        forall|i: int| 0 <= i < rows.len() ==> storable(#[trigger] rows[i], limits),
    ensures
        all_rows(payload_of(rows), rows.len(), limits) == Ok::<Seq<Keyed>, Seq<char>>(rows),
    decreases rows.len(),
{
    if rows.len() == 0 {
        assert(rows =~= Seq::empty());
        assert(payload_of(rows) =~= Seq::empty());
    } else {
        let more = rows.drop_first();
        payload_front(rows);
        assert(storable(rows[0], limits));
        next_row_of_written(rows[0], payload_of(more), rows.len(), limits);
        assert forall|i: int| 0 <= i < more.len() implies storable(#[trigger] more[i], limits) by {
            assert(more[i] == rows[i + 1]);
        }
        payload_reads_back(more, limits);
        assert(seq![rows[0]] + more =~= rows);
    }
}

/// A partition that was written opens under its schema, and gives back its rows in order.
pub proof fn partition_reads_back(
    rows: Seq<Keyed>,
    schema: Seq<u8>,
    limits: PartitionLimits,
    bytes: Seq<u8>,
)
    requires
        bytes == partition_header(schema, rows.len(), payload_of(rows)) + payload_of(rows),
        schema.len() == 32,
        blake3_digest(payload_of(rows)).len() == 32,
        rows.len() <= u64::MAX,
        92 + payload_of(rows).len() <= u64::MAX,
        forall|i: int| 0 <= i < rows.len() ==> storable(#[trigger] rows[i], limits),
    ensures
        file_error(bytes, schema) is None,
        from_le(bytes.subrange(44, 52)) == rows.len(),
        all_rows(bytes.skip(92), rows.len(), limits) == Ok::<Seq<Keyed>, Seq<char>>(rows),
{
    let payload = payload_of(rows);
    magic_bytes();
    spans();
    le_len(2, 2);
    le_len(92, 2);
    le_round_trip(2, 2);
    le_round_trip(92, 2);
    le_len(rows.len(), 8);
    le_len(payload.len(), 8);
    le_round_trip(rows.len(), 8);
    le_round_trip(payload.len(), 8);
    assert(bytes.take(8) =~= utf8("PFPART02"@));
    assert(bytes.subrange(8, 10) =~= le(2, 2));
    assert(bytes.subrange(10, 12) =~= le(92, 2));
    assert(bytes.subrange(12, 44) =~= schema);
    assert(bytes.subrange(44, 52) =~= le(rows.len(), 8));
    assert(bytes.subrange(52, 60) =~= le(payload.len(), 8));
    assert(bytes.subrange(60, 92) =~= blake3_digest(payload));
    assert(bytes.skip(92) =~= payload);
    payload_reads_back(rows, limits);
}

/// A partition that opens does not open when its end is cut off, wherever the cut is.
pub proof fn truncated_partition_is_refused(bytes: Seq<u8>, schema: Seq<u8>, length: int)
    requires
        file_error(bytes, schema) is None,
        0 <= length < bytes.len(),
    ensures
        file_error(bytes.take(length), schema) is Some,
{
    let cut = bytes.take(length);
    if length >= 92 {
        assert(cut.subrange(52, 60) =~= bytes.subrange(52, 60));
    }
}

proof fn words_differ(one: Seq<u8>, other: Seq<u8>, at: int)
    requires
        one.len() == other.len(),
        0 <= at < one.len(),
        one[at] != other[at],
    ensures
        from_le(one) != from_le(other),
{
    from_le_round_trip(one);
    from_le_round_trip(other);
}

/// A partition that opens is refused once a byte of its header is another, unless it is one
/// of the number of records, which is held against the rows as they are read.
pub proof fn changed_header_is_refused(bytes: Seq<u8>, schema: Seq<u8>, at: int, byte: u8)
    requires
        file_error(bytes, schema) is None,
        0 <= at < 44 || 52 <= at < 92,
        byte != bytes[at],
    ensures
        file_error(bytes.update(at, byte), schema) is Some,
{
    let changed = bytes.update(at, byte);
    assert(changed[at] == byte);
    if at < 8 {
        assert(changed.take(8)[at] != bytes.take(8)[at]);
    } else if at < 10 {
        words_differ(changed.subrange(8, 10), bytes.subrange(8, 10), at - 8);
    } else if at < 12 {
        words_differ(changed.subrange(10, 12), bytes.subrange(10, 12), at - 10);
    } else if at < 44 {
        assert(changed.subrange(12, 44)[at - 12] != bytes.subrange(12, 44)[at - 12]);
    } else if at < 60 {
        words_differ(changed.subrange(52, 60), bytes.subrange(52, 60), at - 52);
    } else {
        assert(changed.skip(92) =~= bytes.skip(92));
        assert(changed.subrange(60, 92)[at - 60] != bytes.subrange(60, 92)[at - 60]);
    }
}

/// Rows that were written are not read back under another number of records.
pub proof fn changed_count_is_refused(rows: Seq<Keyed>, count: nat, limits: PartitionLimits)
    requires
        forall|i: int| 0 <= i < rows.len() ==> storable(#[trigger] rows[i], limits),
        count != rows.len(),
    ensures
        all_rows(payload_of(rows), count, limits) is Err,
    decreases rows.len(),
{
    if rows.len() > 0 {
        let more = rows.drop_first();
        payload_front(rows);
        assert(storable(rows[0], limits));
        le_len(record_bytes(rows[0].0, rows[0].1).len(), 8);
        assert(payload_of(rows).len() > 0);
        if count > 0 {
            next_row_of_written(rows[0], payload_of(more), count, limits);
            assert forall|i: int| 0 <= i < more.len() implies storable(
                #[trigger] more[i],
                limits,
            ) by {
                assert(more[i] == rows[i + 1]);
            }
            changed_count_is_refused(more, (count - 1) as nat, limits);
        }
    }
}

/// Two partitions that open with one header have payloads that BLAKE3 does not tell apart:
/// to alter a payload unnoticed takes a collision.
pub proof fn altered_payload_needs_a_collision(one: Seq<u8>, other: Seq<u8>, schema: Seq<u8>)
    requires
        file_error(one, schema) is None,
        file_error(other, schema) is None,
        one.take(92) == other.take(92),
    ensures
        blake3_digest(one.skip(92)) == blake3_digest(other.skip(92)),
{
    assert(one.subrange(60, 92) =~= one.take(92).subrange(60, 92));
    assert(other.subrange(60, 92) =~= other.take(92).subrange(60, 92));
}

/// The longest input of untrusted bytes that is decoded.
pub const MAX_FUZZ_INPUT_BYTES: usize = 1048576;

/// What untrusted bytes are decoded under.
pub open spec fn fuzz_limits() -> PartitionLimits {
    PartitionLimits { max_record_bytes: 1048576, max_columns: 1024 }
}

/// Why untrusted bytes are no partition; the schema is the one that they name.
pub open spec fn fuzz_error(input: Seq<u8>) -> Option<ErrorView> {
    let schema = if input.len() >= 44 {
        input.subrange(12, 44)
    } else {
        Seq::new(32, |i: int| 0u8)
    };
    if input.len() > MAX_FUZZ_INPUT_BYTES {
        Some(
            ErrorView::ResourceLimit {
                resource: "fuzz partition input"@,
                requested: input.len() as u64,
                used: 0,
                limit: 1048576,
            },
        )
    } else {
        match file_error(input, schema) {
            Some(m) => Some(ErrorView::CorruptData(m)),
            None => match all_rows(
                input.skip(92),
                from_le(input.subrange(44, 52)),
                fuzz_limits(),
            ) {
                Err(m) => Some(ErrorView::CorruptData(m)),
                Ok(_) => None,
            },
        }
    }
}

/// Decodes untrusted bytes as a partition, under a hard cap on their length.
pub fn fuzz_partition_bytes(input: &[u8]) -> (r: Result<(), ProofFrameError>)
    ensures
        outcome(r, fuzz_error(input@)),
{
    let size: usize = input.len();
    if size > MAX_FUZZ_INPUT_BYTES {
        return Err(
            ProofFrameError::ResourceLimit {
                resource: "fuzz partition input",
                requested: size as u64,
                used: 0,
                limit: MAX_FUZZ_INPUT_BYTES as u64,
            },
        );
    }
    let mut schema: [u8; 32] = [0u8; 32];
    if size >= 44 {
        let mut i: usize = 0;
        while i < 32
            invariant
                i <= 32,
                44 <= input@.len(),
                forall|k: int| 0 <= k < i ==> #[trigger] schema@[k] == input@[12 + k],
            decreases 32 - i,
        {
            schema[i] = input[12 + i];
            i = i + 1;
        }
        assert(schema@ =~= input@.subrange(12, 44));
    } else {
        assert(schema@ =~= Seq::new(32, |i: int| 0u8));
    }
    let limits = PartitionLimits { max_record_bytes: 1048576, max_columns: 1024 };
    let mut reader = match PartitionReader::open(input, &schema, limits) {
        Ok(reader) => reader,
        Err(e) => return Err(e),
    };
    let ghost whole = all_rows(reader.rest(), reader.left() as nat, limits);
    loop
        invariant_except_break
            reader.wf(),
            reader.spec_limits() == limits,
            limits == fuzz_limits(),
            fuzz_error(input@) == (match whole {
                Err(m) => Some(ErrorView::CorruptData(m)),
                Ok(_) => None,
            }),
            whole is Ok <==> all_rows(reader.rest(), reader.left() as nat, limits) is Ok,
            whole is Err ==> whole == all_rows(reader.rest(), reader.left() as nat, limits),
        ensures
            fuzz_error(input@) is None,
        decreases reader.left(),
    {
        match reader.next() {
            Ok(Some(_)) => {},
            Ok(None) => {
                break;
            },
            Err(e) => return Err(e),
        }
    }
    Ok(())
}

} // verus!
