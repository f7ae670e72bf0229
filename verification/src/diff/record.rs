//! The partition format: a header with a checksum, and framed records of rows.

use crate::bytes::{
    from_le, le, le_len, le_round_trip, prefixed, push_all, push_le, push_prefixed, read_le,
    slice_of, spans,
};
use crate::error::{ErrorView, ProofFrameError};
use crate::text::{text, text_of_utf8, utf8};
use vstd::prelude::*;
use vstd::string::*;
use vstd::utf8::{decode_utf8, encode_utf8_decode_utf8, encode_utf8_valid_utf8, valid_utf8};

verus! {

pub const PARTITIONS: usize = 64;

pub const WRITER_BUFFER_BYTES: usize = 8192;

pub const PARTITION_HEADER_BYTES: usize = 92;

/// What a reader accepts.
#[derive(Debug, Clone, Copy)]
pub struct PartitionLimits {
    pub max_record_bytes: u64,
    pub max_columns: u32,
}

/// A row of a partition: the text of its key, its values, and the hash of those.
#[derive(Debug)]
pub struct RowEntry {
    pub display_key: String,
    pub values: Vec<Option<Vec<u8>>>,
    pub hash: [u8; 32],
}

/// A row of a partition.
#[verifier::ext_equal]
pub struct RowView {
    pub display: Seq<char>,
    pub values: Seq<Option<Seq<u8>>>,
    pub hash: Seq<u8>,
}

/// A value of a row.
pub open spec fn value_view(value: Option<Vec<u8>>) -> Option<Seq<u8>> {
    match value {
        Some(b) => Some(b@),
        None => None,
    }
}

/// The values of a row.
pub open spec fn value_views(values: Seq<Option<Vec<u8>>>) -> Seq<Option<Seq<u8>>> {
    Seq::new(values.len(), |i: int| value_view(values[i]))
}

impl View for RowEntry {
    type V = RowView;

    open spec fn view(&self) -> RowView {
        RowView {
            display: self.display_key@,
            values: value_views(self.values@),
            hash: self.hash@,
        }
    }
}

/// The bytes of a value in a record. A null has a length that no value has.
pub open spec fn value_record(value: Option<Seq<u8>>) -> Seq<u8> {
    match value {
        Some(b) => prefixed(b),
        None => le(u64::MAX as nat, 8),
    }
}

/// The bytes of values in a record.
pub open spec fn values_record(values: Seq<Option<Seq<u8>>>) -> Seq<u8>
    decreases values.len(),
{
    if values.len() == 0 {
        Seq::empty()
    } else {
        values_record(values.drop_last()) + value_record(values.last())
    }
}

/// The bytes of a record.
pub open spec fn record_bytes(key: Seq<u8>, row: RowView) -> Seq<u8> {
    prefixed(key) + prefixed(utf8(row.display)) + row.hash + le(row.values.len(), 4)
        + values_record(row.values)
}

/// A record behind its length.
pub open spec fn framed(record: Seq<u8>) -> Seq<u8> {
    le(record.len(), 8) + record
}

proof fn values_record_front(values: Seq<Option<Seq<u8>>>)
    requires
        values.len() > 0,
    ensures
        values_record(values) == value_record(values[0]) + values_record(values.drop_first()),
    decreases values.len(),
{
    if values.len() == 1 {
        assert(values.drop_last() =~= Seq::empty());
        assert(values.drop_first() =~= Seq::empty());
        assert(values_record(values) =~= value_record(values[0]) + values_record(
            values.drop_first(),
        ));
    } else {
        values_record_front(values.drop_last());
        assert(values.drop_last().drop_first() =~= values.drop_first().drop_last());
        assert(values_record(values) =~= value_record(values[0]) + values_record(
            values.drop_first(),
        ));
    }
}

/// Writes a record. A row has fewer columns than four bytes can count.
pub fn encode_record(key: &[u8], entry: &RowEntry) -> (r: Result<Vec<u8>, ProofFrameError>)
    ensures
        if entry.values@.len() > u32::MAX {
            r matches Err(e) && e@ == ErrorView::CorruptData("Diff row has more than u32 columns"@)
        } else {
            r matches Ok(b) && b@ == record_bytes(key@, entry@)
        },
{
    let mut out: Vec<u8> = Vec::new();
    if entry.values.len() > 0xFFFF_FFFF {
        return Err(ProofFrameError::CorruptData(text("Diff row has more than u32 columns")));
    }
    push_prefixed(&mut out, key);
    push_prefixed(&mut out, entry.display_key.as_str().as_bytes());
    push_all(&mut out, entry.hash.as_slice());
    push_le(&mut out, entry.values.len() as u128, 4);
    let ghost head = out@;
    let ghost all = value_views(entry.values@);
    let mut i: usize = 0;
    assert(head + values_record(all.take(0)) =~= head);
    while i < entry.values.len()
        invariant
            i <= entry.values@.len(),
            all == value_views(entry.values@),
            out@ == head + values_record(all.take(i as int)),
        decreases entry.values@.len() - i,
    {
        let ghost before = out@;
        match &entry.values[i] {
            Some(bytes) => {
                push_prefixed(&mut out, bytes.as_slice());
            },
            None => {
                push_le(&mut out, 0xFFFF_FFFF_FFFF_FFFF, 8);
            },
        }
        proof {
            assert(all.take(i + 1).drop_last() =~= all.take(i as int));
            assert(all.take(i + 1).last() == value_view(entry.values@[i as int]));
            assert(out@ =~= head + values_record(all.take(i + 1)));
        }
        i = i + 1;
    }
    assert(all.take(all.len() as int) =~= all);
    assert(out@ =~= record_bytes(key@, entry@));
    Ok(out)
}

/// The number in the first bytes, and what stands behind it.
pub open spec fn take_word(p: Seq<u8>, width: nat) -> Result<(nat, Seq<u8>), Seq<char>> {
    if p.len() < width {
        Err("Diff partition is truncated"@)
    } else {
        Ok((from_le(p.take(width as int)), p.skip(width as int)))
    }
}

/// The first `n` bytes, and what stands behind them.
pub open spec fn take_run(p: Seq<u8>, n: nat, max: nat) -> Result<(Seq<u8>, Seq<u8>), Seq<char>> {
    if n > max {
        Err("Diff field length exceeds max_record_bytes"@)
    } else if p.len() < n {
        Err("Diff partition is truncated"@)
    } else {
        Ok((p.take(n as int), p.skip(n as int)))
    }
}

/// The field behind a length, and what stands behind it.
pub open spec fn take_field(p: Seq<u8>, max: nat) -> Result<(Seq<u8>, Seq<u8>), Seq<char>> {
    match take_word(p, 8) {
        Err(m) => Err(m),
        Ok((n, rest)) => take_run(rest, n, max),
    }
}

/// The first value, and what stands behind it.
pub open spec fn take_value(p: Seq<u8>, max: nat) -> Result<
    (Option<Seq<u8>>, Seq<u8>),
    Seq<char>,
> {
    match take_word(p, 8) {
        Err(m) => Err(m),
        Ok((n, rest)) => if n == u64::MAX {
            Ok((None, rest))
        } else {
            match take_run(rest, n, max) {
                Err(m) => Err(m),
                Ok((b, behind)) => Ok((Some(b), behind)),
            }
        },
    }
}

/// The first `n` values, and what stands behind them.
pub open spec fn take_values(p: Seq<u8>, n: nat, max: nat) -> Result<
    (Seq<Option<Seq<u8>>>, Seq<u8>),
    Seq<char>,
>
    decreases n,
{
    if n == 0 {
        Ok((Seq::empty(), p))
    } else {
        match take_value(p, max) {
            Err(m) => Err(m),
            Ok((v, rest)) => match take_values(rest, (n - 1) as nat, max) {
                Err(m) => Err(m),
                Ok((more, behind)) => Ok((seq![v] + more, behind)),
            },
        }
    }
}

/// The values of a record and its end.
pub open spec fn take_tail(
    key: Seq<u8>,
    display: Seq<u8>,
    p: Seq<u8>,
    limits: PartitionLimits,
) -> Result<(Seq<u8>, RowView), Seq<char>> {
    if p.len() < 32 {
        Err("Diff partition is truncated"@)
    } else {
        match take_word(p.skip(32), 4) {
            Err(m) => Err(m),
            Ok((count, rest)) => if count > limits.max_columns {
                Err("Diff value count exceeds max_columns"@)
            } else {
                match take_values(rest, count, limits.max_record_bytes as nat) {
                    Err(m) => Err(m),
                    Ok((values, behind)) => if behind.len() != 0 {
                        Err("Diff record contains trailing bytes"@)
                    } else {
                        Ok((key, RowView { display: decode_utf8(display), values, hash: p.take(32) }))
                    },
                }
            },
        }
    }
}

/// The row of a record, or why there is none.
pub open spec fn decoded_record(p: Seq<u8>, limits: PartitionLimits) -> Result<
    (Seq<u8>, RowView),
    Seq<char>,
> {
    match take_field(p, limits.max_record_bytes as nat) {
        Err(m) => Err(m),
        Ok((key, rest)) => match take_field(rest, limits.max_record_bytes as nat) {
            Err(m) => Err(m),
            Ok((display, behind)) => if !valid_utf8(display) {
                Err("Diff display key is not valid UTF-8"@)
            } else {
                take_tail(key, display, behind, limits)
            },
        },
    }
}

fn corrupt(message: &str) -> (r: ProofFrameError)
    ensures
        r@ == ErrorView::CorruptData(message@),
{
    ProofFrameError::CorruptData(text(message))
}

fn read_word(encoded: &[u8], at: usize, width: usize) -> (r: Result<(u64, usize), ProofFrameError>)
    requires
        at <= encoded@.len(),
        width <= 8,
    ensures
        match take_word(encoded@.skip(at as int), width as nat) {
            Ok((n, rest)) => r matches Ok((v, next)) && v == n && next <= encoded@.len() && rest
                == encoded@.skip(next as int) && next == at + width,
            Err(m) => r matches Err(e) && e@ == ErrorView::CorruptData(m),
        },
{
    if encoded.len() - at < width {
        return Err(corrupt("Diff partition is truncated"));
    }
    let v = read_le(encoded, at, width);
    proof {
        assert(encoded@.skip(at as int).take(width as int) =~= encoded@.subrange(
            at as int,
            at + width,
        ));
        assert(encoded@.skip(at as int).skip(width as int) =~= encoded@.skip(at + width));
    }
    Ok((v, at + width))
}

fn read_run(encoded: &[u8], at: usize, length: u64, max: u64) -> (r: Result<
    (Vec<u8>, usize),
    ProofFrameError,
>)
    requires
        at <= encoded@.len(),
    ensures
        match take_run(encoded@.skip(at as int), length as nat, max as nat) {
            Ok((b, rest)) => r matches Ok((v, next)) && v@ == b && next <= encoded@.len() && rest
                == encoded@.skip(next as int),
            Err(m) => r matches Err(e) && e@ == ErrorView::CorruptData(m),
        },
{
    if length > max {
        return Err(corrupt("Diff field length exceeds max_record_bytes"));
    }
    if length > (encoded.len() - at) as u64 {
        return Err(corrupt("Diff partition is truncated"));
    }
    let next: usize = at + length as usize;
    let bytes = slice_of(encoded, at, next);
    proof {
        assert(encoded@.skip(at as int).take(length as int) =~= encoded@.subrange(
            at as int,
            next as int,
        ));
        assert(encoded@.skip(at as int).skip(length as int) =~= encoded@.skip(next as int));
    }
    Ok((bytes, next))
}

fn read_field(encoded: &[u8], at: usize, max: u64) -> (r: Result<(Vec<u8>, usize), ProofFrameError>)
    requires
        at <= encoded@.len(),
    ensures
        match take_field(encoded@.skip(at as int), max as nat) {
            Ok((b, rest)) => r matches Ok((v, next)) && v@ == b && next <= encoded@.len() && rest
                == encoded@.skip(next as int),
            Err(m) => r matches Err(e) && e@ == ErrorView::CorruptData(m),
        },
{
    let (length, behind) = read_word(encoded, at, 8)?;
    read_run(encoded, behind, length, max)
}

fn read_value(encoded: &[u8], at: usize, max: u64) -> (r: Result<
    (Option<Vec<u8>>, usize),
    ProofFrameError,
>)
    requires
        at <= encoded@.len(),
    ensures
        match take_value(encoded@.skip(at as int), max as nat) {
            Ok((b, rest)) => r matches Ok((v, next)) && value_view(v) == b && next
                <= encoded@.len() && rest == encoded@.skip(next as int),
            Err(m) => r matches Err(e) && e@ == ErrorView::CorruptData(m),
        },
{
    let (length, behind) = read_word(encoded, at, 8)?;
    if length == u64::MAX {
        return Ok((None, behind));
    }
    let (bytes, next) = read_run(encoded, behind, length, max)?;
    Ok((Some(bytes), next))
}

/// Values put before those that a prefix of the bytes does not hold.
proof fn take_values_step(
    done: Seq<Option<Seq<u8>>>,
    p: Seq<u8>,
    n: nat,
    max: nat,
    whole: Result<(Seq<Option<Seq<u8>>>, Seq<u8>), Seq<char>>,
)
    requires
        n > 0,
        whole == joined_values(done, take_values(p, n, max)),
    ensures
        match take_value(p, max) {
            Err(m) => whole == Err::<(Seq<Option<Seq<u8>>>, Seq<u8>), Seq<char>>(m),
            Ok((v, rest)) => whole == joined_values(
                done.push(v),
                take_values(rest, (n - 1) as nat, max),
            ),
        },
{
    match take_value(p, max) {
        Err(m) => {},
        Ok((v, rest)) => {
            match take_values(rest, (n - 1) as nat, max) {
                Err(m) => {},
                Ok((more, behind)) => {
                    assert(done + (seq![v] + more) =~= done.push(v) + more);
                },
            }
        },
    }
}

/// Values, and then those that are read.
pub open spec fn joined_values(
    done: Seq<Option<Seq<u8>>>,
    read: Result<(Seq<Option<Seq<u8>>>, Seq<u8>), Seq<char>>,
) -> Result<(Seq<Option<Seq<u8>>>, Seq<u8>), Seq<char>> {
    match read {
        Err(m) => Err(m),
        Ok((more, rest)) => Ok((done + more, rest)),
    }
}

fn read_values(encoded: &[u8], at: usize, count: u32, max: u64) -> (r: Result<
    (Vec<Option<Vec<u8>>>, usize),
    ProofFrameError,
>)
    requires
        at <= encoded@.len(),
    ensures
        match take_values(encoded@.skip(at as int), count as nat, max as nat) {
            Ok((b, rest)) => r matches Ok((v, next)) && value_views(v@) == b && next
                <= encoded@.len() && rest == encoded@.skip(next as int),
            Err(m) => r matches Err(e) && e@ == ErrorView::CorruptData(m),
        },
{
    let ghost whole = take_values(encoded@.skip(at as int), count as nat, max as nat);
    let mut values: Vec<Option<Vec<u8>>> = Vec::new();
    let mut place: usize = at;
    let mut left: u32 = count;
    proof {
        assert(value_views(values@) =~= Seq::empty());
        match whole {
            Ok((b, rest)) => {
                assert(Seq::<Option<Seq<u8>>>::empty() + b =~= b);
            },
            Err(m) => {},
        }
    }
    while left > 0
        invariant
            place <= encoded@.len(),
            whole == joined_values(
                value_views(values@),
                take_values(encoded@.skip(place as int), left as nat, max as nat),
            ),
            whole == take_values(encoded@.skip(at as int), count as nat, max as nat),
        decreases left,
    {
        proof {
            take_values_step(
                value_views(values@),
                encoded@.skip(place as int),
                left as nat,
                max as nat,
                whole,
            );
        }
        let ghost before = values@;
        let (value, next) = read_value(encoded, place, max)?;
        values.push(value);
        assert(value_views(values@) =~= value_views(before).push(value_view(value)));
        place = next;
        left = left - 1;
    }
    assert(value_views(values@) + Seq::<Option<Seq<u8>>>::empty() =~= value_views(values@));
    Ok((values, place))
}

/// Reads a record.
pub fn decode_record(encoded: &[u8], limits: PartitionLimits) -> (r: Result<
    (Vec<u8>, RowEntry),
    ProofFrameError,
>)
    ensures
        match decoded_record(encoded@, limits) {
            Ok((k, row)) => r matches Ok((key, entry)) && key@ == k && entry@ == row,
            Err(m) => r matches Err(e) && e@ == ErrorView::CorruptData(m),
        },
{
    assert(encoded@.skip(0) =~= encoded@);
    let (key, after_key) = read_field(encoded, 0, limits.max_record_bytes)?;
    let (display, after_display) = read_field(encoded, after_key, limits.max_record_bytes)?;
    let ghost display_bytes = display@;
    let display_key = match text_of_utf8(display) {
        Some(s) => s,
        None => {
            return Err(corrupt("Diff display key is not valid UTF-8"));
        },
    };
    proof {
        encode_utf8_decode_utf8(display_key@);
    }
    let ghost behind = encoded@.skip(after_display as int);
    if encoded.len() - after_display < 32 {
        return Err(corrupt("Diff partition is truncated"));
    }
    let mut hash = [0u8;32];
    let mut i: usize = 0;
    let size: usize = encoded.len();
    while i < 32
        invariant
            i <= 32,
            after_display + 32 <= size,
            size == encoded@.len(),
            behind == encoded@.skip(after_display as int),
            forall|k: int| 0 <= k < i ==> #[trigger] hash@[k] == behind[k],
        decreases 32 - i,
    {
        hash[i] = encoded[after_display + i];
        i = i + 1;
    }
    proof {
        assert(hash@ =~= behind.take(32));
        assert(behind.skip(32) =~= encoded@.skip(after_display + 32));
    }
    let (count, after_count) = read_word(encoded, after_display + 32, 4)?;
    if count > limits.max_columns as u64 {
        return Err(corrupt("Diff value count exceeds max_columns"));
    }
    let (values, end) = read_values(encoded, after_count, count as u32, limits.max_record_bytes)?;
    if end != encoded.len() {
        return Err(corrupt("Diff record contains trailing bytes"));
    }
    let entry = RowEntry { display_key, values, hash };
    Ok((key, entry))
}

/// A row that a reader with limits gives back.
pub open spec fn admitted(key: Seq<u8>, row: RowView, limits: PartitionLimits) -> bool {
    &&& key.len() <= limits.max_record_bytes
    &&& utf8(row.display).len() <= limits.max_record_bytes
    &&& row.hash.len() == 32
    &&& row.values.len() <= limits.max_columns
    &&& limits.max_record_bytes < u64::MAX
    &&& forall|i: int|
        0 <= i < row.values.len() ==> (#[trigger] row.values[i] matches Some(b) ==> b.len()
            <= limits.max_record_bytes)
}

proof fn field_reads_back(b: Seq<u8>, rest: Seq<u8>, max: nat)
    requires
        b.len() <= max,
        max < u64::MAX,
    ensures
        take_field(prefixed(b) + rest, max) == Ok::<(Seq<u8>, Seq<u8>), Seq<char>>((b, rest)),
{
    spans();
    le_round_trip(b.len(), 8);
    le_len(b.len(), 8);
    let p = prefixed(b) + rest;
    assert(p.take(8) =~= le(b.len(), 8));
    assert(p.skip(8) =~= b + rest);
    assert((b + rest).take(b.len() as int) =~= b);
    assert((b + rest).skip(b.len() as int) =~= rest);
}

proof fn value_reads_back(value: Option<Seq<u8>>, rest: Seq<u8>, max: nat)
    requires
        value matches Some(b) ==> b.len() <= max,
        max < u64::MAX,
    ensures
        take_value(value_record(value) + rest, max) == Ok::<
            (Option<Seq<u8>>, Seq<u8>),
            Seq<char>,
        >((value, rest)),
{
    spans();
    let p = value_record(value) + rest;
    match value {
        Some(b) => {
            le_round_trip(b.len(), 8);
            le_len(b.len(), 8);
            assert(p.take(8) =~= le(b.len(), 8));
            assert(p.skip(8) =~= b + rest);
            assert((b + rest).take(b.len() as int) =~= b);
            assert((b + rest).skip(b.len() as int) =~= rest);
        },
        None => {
            le_round_trip(u64::MAX as nat, 8);
            le_len(u64::MAX as nat, 8);
            assert(p.take(8) =~= le(u64::MAX as nat, 8));
            assert(p.skip(8) =~= rest);
        },
    }
}

proof fn values_read_back(values: Seq<Option<Seq<u8>>>, rest: Seq<u8>, max: nat)
    requires
        max < u64::MAX,
        forall|i: int|
            0 <= i < values.len() ==> (#[trigger] values[i] matches Some(b) ==> b.len() <= max),
    ensures
        take_values(values_record(values) + rest, values.len(), max) == Ok::<
            (Seq<Option<Seq<u8>>>, Seq<u8>),
            Seq<char>,
        >((values, rest)),
    decreases values.len(),
{
    if values.len() == 0 {
        assert(values =~= Seq::empty());
        assert(values_record(values) + rest =~= rest);
    } else {
        let more = values.drop_first();
        values_record_front(values);
        assert(values_record(values) + rest =~= value_record(values[0]) + (values_record(more)
            + rest));
        value_reads_back(values[0], values_record(more) + rest, max);
        assert forall|i: int| 0 <= i < more.len() implies (#[trigger] more[i] matches Some(b)
            ==> b.len() <= max) by {
            assert(more[i] == values[i + 1]);
        }
        values_read_back(more, rest, max);
        assert(seq![values[0]] + more =~= values);
    }
}

/// A record reads back as the row that was written, for every row within the limits.
pub proof fn record_reads_back(key: Seq<u8>, row: RowView, limits: PartitionLimits)
    requires
        admitted(key, row, limits),
    ensures
        decoded_record(record_bytes(key, row), limits) == Ok::<(Seq<u8>, RowView), Seq<char>>(
            (key, row),
        ),
{
    let max = limits.max_record_bytes as nat;
    let display = utf8(row.display);
    let tail = row.hash + le(row.values.len(), 4) + values_record(row.values);
    let p = record_bytes(key, row);
    assert(p =~= prefixed(key) + (prefixed(display) + tail));
    field_reads_back(key, prefixed(display) + tail, max);
    field_reads_back(display, tail, max);
    encode_utf8_valid_utf8(row.display);
    encode_utf8_decode_utf8(row.display);
    spans();
    le_round_trip(row.values.len(), 4);
    le_len(row.values.len(), 4);
    assert(tail.take(32) =~= row.hash);
    let counted = le(row.values.len(), 4) + values_record(row.values);
    assert(tail.skip(32) =~= counted);
    assert(counted.take(4) =~= le(row.values.len(), 4));
    assert(counted.skip(4) =~= values_record(row.values) + Seq::empty());
    values_read_back(row.values, Seq::empty(), max);
}

} // verus!
