//! The run format: a header, a checksum, and sorted records.

use crate::bytes::{
    from_le, from_le_round_trip, le, le_len, le_round_trip, push_all, push_le, push_le_signed,
    read_le, slice_of, span, spans, twos,
};
use crate::digest::{blake3_digest, digest_of};
use crate::distinct::order::{
    entries, entry_le, entry_total, entry_transitive, key_total, record_less, sorted, Entry, Key,
    OwnedValue, Record, ValueKind,
};
use crate::error::{ErrorView, ProofFrameError};
use crate::text::{bytes_eq, text, utf8};
use vstd::prelude::*;

verus! {

pub const HEADER_BYTES: usize = 60;

pub const MAX_RECORD_BYTES: u64 = 67108864;

/// The tag of a value kind.
pub open spec fn kind_tag(kind: ValueKind) -> u8 {
    match kind {
        ValueKind::I64 => 1,
        ValueKind::U64 => 2,
        ValueKind::F64 => 3,
        ValueKind::Bytes => 4,
    }
}

impl ValueKind {
    /// The tag of a value kind.
    pub fn tag(self) -> (r: u8)
        ensures
            r == kind_tag(self),
    {
        match self {
            ValueKind::I64 => 1,
            ValueKind::U64 => 2,
            ValueKind::F64 => 3,
            ValueKind::Bytes => 4,
        }
    }

    /// The value kind of a tag.
    pub fn from_tag(tag: u8) -> (r: Result<Self, ProofFrameError>)
        ensures
            match r {
                Ok(kind) => kind_tag(kind) == tag,
                Err(e) => !(1 <= tag <= 4) && e@ == ErrorView::CorruptData(
                    "Exact run value kind is invalid"@,
                ),
            },
    {
        match tag {
            1 => Ok(ValueKind::I64),
            2 => Ok(ValueKind::U64),
            3 => Ok(ValueKind::F64),
            4 => Ok(ValueKind::Bytes),
            _ => Err(ProofFrameError::CorruptData(text("Exact run value kind is invalid"))),
        }
    }
}

/// The bytes of a value.
pub open spec fn key_bytes(k: Key) -> Seq<u8> {
    match k {
        Key::I64(v) => le(twos(v), 8),
        Key::U64(v) => le(v as nat, 8),
        Key::F64(v) => le(v as nat, 8),
        Key::Bytes(b) => le(b.len(), 4) + b,
    }
}

/// The bytes of an entry: its value, then its row.
pub open spec fn entry_bytes(e: Entry) -> Seq<u8> {
    key_bytes(e.0) + le(e.1 as nat, 8)
}

/// The bytes of a list of entries.
pub open spec fn payload(s: Seq<Entry>) -> Seq<u8>
    decreases s.len(),
{
    if s.len() == 0 {
        Seq::empty()
    } else {
        payload(s.drop_last()) + entry_bytes(s.last())
    }
}

/// The bytes of a list are those of its first entry, then those of the rest.
pub proof fn payload_front(s: Seq<Entry>)
    requires
        s.len() > 0,
    ensures
        payload(s) == entry_bytes(s[0]) + payload(s.drop_first()),
    decreases s.len(),
{
    if s.len() == 1 {
        assert(s.drop_last() =~= Seq::empty());
        assert(s.drop_first() =~= Seq::empty());
        assert(payload(s) =~= entry_bytes(s[0]) + payload(s.drop_first()));
    } else {
        payload_front(s.drop_last());
        assert(s.drop_last().drop_first() =~= s.drop_first().drop_last());
        assert(payload(s) =~= entry_bytes(s[0]) + payload(s.drop_first()));
    }
}

/// The header of a run.
pub open spec fn run_header(kind: ValueKind, records: nat, body: Seq<u8>, checksum: Seq<u8>) -> Seq<
    u8,
> {
    utf8("PFRUN001"@) + le(1, 2) + seq![kind_tag(kind), 0u8] + le(records, 8) + le(body.len(), 8)
        + checksum
}

/// A whole run, given the digest of its payload.
pub open spec fn run_bytes(kind: ValueKind, s: Seq<Entry>, checksum: Seq<u8>) -> Seq<u8> {
    run_header(kind, s.len(), payload(s), checksum) + payload(s)
}

/// What is remembered of a run that was written.
#[derive(Debug, Clone, Copy)]
pub struct RunMeta {
    pub kind: ValueKind,
    pub records: u64,
    pub payload_bytes: u64,
    pub max_record_bytes: u64,
    pub checksum: [u8; 32],
}

impl RunMeta {
    /// The length of the run.
    pub fn total_bytes(&self) -> (r: u64)
        requires
            self.payload_bytes <= u64::MAX - 60,
        ensures
            r == 60 + self.payload_bytes,
    {
        60 + self.payload_bytes
    }
}

/// The longest value of a list, as a run counts it.
pub open spec fn longest(s: Seq<Entry>) -> nat
    decreases s.len(),
{
    if s.len() == 0 {
        0
    } else {
        let rest = longest(s.drop_last());
        let here: nat = match s.last().0 {
            Key::Bytes(b) => b.len(),
            _ => 8,
        };
        if here > rest {
            here
        } else {
            rest
        }
    }
}

/// An entry that a run of a kind can hold: a number of the machine, or bytes whose length
/// fits in four bytes.
pub open spec fn storable(e: Entry, kind: ValueKind) -> bool {
    e.0.kind() == kind && match e.0 {
        Key::I64(v) => i64::MIN <= v <= i64::MAX,
        Key::U64(v) => 0 <= v <= u64::MAX,
        Key::F64(v) => 0 <= v <= u64::MAX,
        Key::Bytes(b) => b.len() <= u32::MAX,
    }
}

/// The meta data of the run that holds a list of entries.
pub open spec fn describes(meta: RunMeta, kind: ValueKind, s: Seq<Entry>) -> bool {
    &&& meta.kind == kind
    &&& meta.records == s.len()
    &&& meta.payload_bytes == payload(s).len()
    &&& meta.max_record_bytes == longest(s)
    &&& meta.checksum@ == blake3_digest(payload(s))
}

fn push_record(out: &mut Vec<u8>, record: &Record)
    requires
        record.value matches OwnedValue::Bytes(b) ==> b@.len() <= u32::MAX,
    ensures
        final(out)@ == old(out)@ + entry_bytes(record@),
{
    match &record.value {
        OwnedValue::I64(v) => push_le_signed(out, *v as i128, 8),
        OwnedValue::U64(v) => push_le(out, *v as u128, 8),
        OwnedValue::F64(v) => push_le(out, *v as u128, 8),
        OwnedValue::Bytes(b) => {
            push_le(out, b.len() as u128, 4);
            push_all(out, b.as_slice());
        },
    }
    push_le(out, record.row as u128, 8);
    assert(out@ =~= old(out)@ + entry_bytes(record@));
}

/// Writes a run of a list of records, which stand in order.
pub fn write_run(kind: ValueKind, records: &Vec<Record>) -> (r: (RunMeta, Vec<u8>))
    requires
        forall|i: int| 0 <= i < records@.len() ==> storable((#[trigger] records@[i])@, kind),
    ensures
        describes(r.0, kind, entries(records@)),
        r.1@ == run_bytes(kind, entries(records@), r.0.checksum@),
{
    let ghost all = entries(records@);
    let mut body: Vec<u8> = Vec::new();
    let mut widest: u64 = 0;
    let mut i: usize = 0;
    assert(payload(all.take(0)) =~= Seq::empty());
    while i < records.len()
        invariant
            i <= records@.len(),
            all == entries(records@),
            forall|k: int| 0 <= k < records@.len() ==> storable((#[trigger] records@[k])@, kind),
            body@ == payload(all.take(i as int)),
            widest == longest(all.take(i as int)),
        decreases records@.len() - i,
    {
        let record = &records[i];
        proof {
            let now = all.take(i + 1);
            assert(now.drop_last() =~= all.take(i as int));
            assert(now.last() == record@);
            assert(storable(records@[i as int]@, kind));
        }
        push_record(&mut body, record);
        let here: u64 = match &record.value {
            OwnedValue::Bytes(b) => b.len() as u64,
            _ => 8,
        };
        if here > widest {
            widest = here;
        }
        i = i + 1;
    }
    assert(all.take(records@.len() as int) =~= all);
    let checksum = digest_of(body.as_slice());
    let mut out: Vec<u8> = Vec::new();
    push_all(&mut out, "PFRUN001".as_bytes());
    push_le(&mut out, 1, 2);
    out.push(kind.tag());
    out.push(0);
    push_le(&mut out, records.len() as u128, 8);
    push_le(&mut out, body.len() as u128, 8);
    push_all(&mut out, checksum.as_slice());
    assert(out@ =~= run_header(kind, all.len(), payload(all), checksum@));
    push_all(&mut out, body.as_slice());
    let meta = RunMeta {
        kind,
        records: records.len() as u64,
        payload_bytes: body.len() as u64,
        max_record_bytes: widest,
        checksum,
    };
    (meta, out)
}

/// The signed number of eight bytes.
pub open spec fn signed_word(v: nat) -> int {
    if v < 0x8000_0000_0000_0000 {
        v as int
    } else {
        v - 0x1_0000_0000_0000_0000
    }
}

/// The number of bytes that an entry takes.
pub open spec fn entry_width(k: Key) -> nat {
    match k {
        Key::Bytes(b) => 12 + b.len(),
        _ => 16,
    }
}

/// The first entry in a payload, or why there is none.
pub open spec fn read_entry(kind: ValueKind, p: Seq<u8>) -> Result<Entry, Seq<char>> {
    match kind {
        ValueKind::Bytes => if p.len() < 4 {
            Err("Exact run record crosses the payload boundary"@)
        } else {
            let n = from_le(p.subrange(0, 4));
            if n > 67108864 || n + 12 > p.len() {
                Err("Exact run byte length exceeds its bounded payload"@)
            } else {
                Ok(
                    (
                        Key::Bytes(p.subrange(4, 4 + n as int)),
                        from_le(p.subrange(4 + n as int, 12 + n as int)) as u64,
                    ),
                )
            }
        },
        _ => if p.len() < 16 {
            Err("Exact run record crosses the payload boundary"@)
        } else {
            let v = from_le(p.subrange(0, 8));
            Ok(
                (
                    match kind {
                        ValueKind::I64 => Key::I64(signed_word(v)),
                        ValueKind::U64 => Key::U64(v as int),
                        _ => Key::F64(v as int),
                    },
                    from_le(p.subrange(8, 16)) as u64,
                ),
            )
        },
    }
}

/// The `n` entries of a payload, or why it does not hold just as many.
pub open spec fn read_all(kind: ValueKind, p: Seq<u8>, n: nat) -> Result<Seq<Entry>, Seq<char>>
    decreases n,
{
    if n == 0 {
        if p.len() == 0 {
            Ok(Seq::empty())
        } else {
            Err("Exact run record count does not consume its payload"@)
        }
    } else {
        match read_entry(kind, p) {
            Err(m) => Err(m),
            Ok(e) => match read_all(kind, p.skip(entry_width(e.0) as int), (n - 1) as nat) {
                Err(m) => Err(m),
                Ok(rest) => Ok(seq![e] + rest),
            },
        }
    }
}

/// An entry that a run gives back when it is read.
pub open spec fn readable(e: Entry, kind: ValueKind) -> bool {
    storable(e, kind) && match e.0 {
        Key::Bytes(b) => b.len() <= 67108864,
        _ => true,
    }
}

proof fn read_entry_of_written(kind: ValueKind, e: Entry, rest: Seq<u8>)
    requires
        readable(e, kind),
    ensures
        read_entry(kind, entry_bytes(e) + rest) == Ok::<Entry, Seq<char>>(e),
        entry_bytes(e).len() == entry_width(e.0),
{
    let p = entry_bytes(e) + rest;
    spans();
    le_round_trip(e.1 as nat, 8);
    match e.0 {
        Key::I64(v) => {
            let w = twos(v);
            le_len(w, 8);
            assert(p.subrange(0, 8) =~= le(w, 8));
            assert(p.subrange(8, 16) =~= le(e.1 as nat, 8));
            low_word(w);
        },
        Key::U64(v) => {
            le_round_trip(v as nat, 8);
            assert(p.subrange(0, 8) =~= le(v as nat, 8));
            assert(p.subrange(8, 16) =~= le(e.1 as nat, 8));
        },
        Key::F64(v) => {
            le_round_trip(v as nat, 8);
            assert(p.subrange(0, 8) =~= le(v as nat, 8));
            assert(p.subrange(8, 16) =~= le(e.1 as nat, 8));
        },
        Key::Bytes(b) => {
            le_round_trip(b.len(), 4);
            assert(p.subrange(0, 4) =~= le(b.len(), 4));
            assert(p.subrange(4, 4 + b.len() as int) =~= b);
            assert(p.subrange(4 + b.len() as int, 12 + b.len() as int) =~= le(e.1 as nat, 8));
        },
    }
}

/// The low eight bytes of a two's complement are that of the same number in eight bytes.
proof fn low_word(w: nat)
    ensures
        from_le(le(w, 8)) == w % 0x1_0000_0000_0000_0000,
{
    spans();
    low_bytes(w, 8);
}

proof fn low_bytes(w: nat, width: nat)
    ensures
        from_le(le(w, width)) == w % span(width),
    decreases width,
{
    if width > 0 {
        let m = span((width - 1) as nat);
        low_bytes(w / 256, (width - 1) as nat);
        assert(le(w, width).drop_first() =~= le(w / 256, (width - 1) as nat));
        span_positive((width - 1) as nat);
        assert(w % (256 * m) == w % 256 + 256 * ((w / 256) % m)) by {
            vstd::arithmetic::div_mod::lemma_mod_breakdown(w as int, 256, m as int);
        }
    }
}

proof fn span_positive(width: nat)
    ensures
        span(width) > 0,
    decreases width,
{
    if width > 0 {
        span_positive((width - 1) as nat);
    }
}

/// A run gives back the entries that were written to it, in their order.
pub proof fn run_reads_what_was_written(kind: ValueKind, s: Seq<Entry>)
    requires
        forall|i: int| 0 <= i < s.len() ==> readable(#[trigger] s[i], kind),
    ensures
        read_all(kind, payload(s), s.len()) == Ok::<Seq<Entry>, Seq<char>>(s),
    decreases s.len(),
{
    if s.len() == 0 {
        assert(s =~= Seq::empty());
    } else {
        payload_front(s);
        let rest = s.drop_first();
        read_entry_of_written(kind, s[0], payload(rest));
        assert forall|i: int| 0 <= i < rest.len() implies readable(#[trigger] rest[i], kind) by {
            assert(rest[i] == s[i + 1]);
        }
        run_reads_what_was_written(kind, rest);
        assert(payload(s).skip(entry_width(s[0].0) as int) =~= payload(rest));
        assert(seq![s[0]] + rest =~= s);
    }
}

/// Why the bytes of a run are not those that were written, given the digest of what stands
/// behind their header.
pub open spec fn run_error(meta: RunMeta, bytes: Seq<u8>, digest: Seq<u8>) -> Option<Seq<char>> {
    if bytes.len() != 60 + meta.payload_bytes {
        Some("Exact run length does not match its header"@)
    } else if digest != meta.checksum@ {
        Some("Exact run payload checksum is invalid"@)
    } else if bytes.subrange(0, 8) != utf8("PFRUN001"@) {
        Some("Exact run magic is invalid"@)
    } else if from_le(bytes.subrange(8, 10)) != 1 {
        Some("Exact run version is unsupported"@)
    } else if !(1 <= bytes[10] <= 4) {
        Some("Exact run value kind is invalid"@)
    } else if bytes[10] != kind_tag(meta.kind) || from_le(bytes.subrange(12, 20)) != meta.records
        || from_le(bytes.subrange(20, 28)) != meta.payload_bytes || bytes.subrange(28, 60)
        != meta.checksum@ {
        Some("Exact run metadata changed after creation"@)
    } else {
        match read_all(meta.kind, bytes.skip(60), meta.records as nat) {
            Err(m) => Some(m),
            Ok(_) => None,
        }
    }
}

/// A reader of a run whose bytes were found whole.
pub struct RunCursor<'a> {
    bytes: &'a [u8],
    kind: ValueKind,
    remaining: u64,
    at: usize,
}

fn corrupt(message: &'static str) -> (r: ProofFrameError)
    ensures
        r@ == ErrorView::CorruptData(message@),
{
    ProofFrameError::CorruptData(text(message))
}

impl<'a> RunCursor<'a> {
    /// What is left to read reads without an error.
    pub closed spec fn wf(&self) -> bool {
        &&& self.at <= self.bytes@.len()
        &&& read_all(self.kind, self.bytes@.skip(self.at as int), self.remaining as nat) is Ok
    }

    /// The entries that are left to read.
    pub closed spec fn rest(&self) -> Seq<Entry> {
        read_all(self.kind, self.bytes@.skip(self.at as int), self.remaining as nat)->Ok_0
    }

    /// The kind of the entries.
    pub closed spec fn spec_kind(&self) -> ValueKind {
        self.kind
    }

    /// Opens a run, given the digest of what stands behind its header, and finds its bytes
    /// whole.
    pub fn open_with(meta: &RunMeta, bytes: &'a [u8], digest: &[u8; 32]) -> (r: Result<
        Self,
        ProofFrameError,
    >)
        ensures
            match run_error(*meta, bytes@, digest@) {
                Some(m) => r matches Err(e) && e@ == ErrorView::CorruptData(m),
                None => r matches Ok(c) && c.wf() && c.spec_kind() == meta.kind && read_all(
                    meta.kind,
                    bytes@.skip(60),
                    meta.records as nat,
                ) == Ok::<Seq<Entry>, Seq<char>>(c.rest()),
            },
    {
        let n: usize = bytes.len();
        if n < 60 || (n - 60) as u64 != meta.payload_bytes {
            return Err(corrupt("Exact run length does not match its header"));
        }
        if !bytes_eq(digest.as_slice(), meta.checksum.as_slice()) {
            return Err(corrupt("Exact run payload checksum is invalid"));
        }
        let magic = slice_of(bytes, 0, 8);
        if !bytes_eq(magic.as_slice(), "PFRUN001".as_bytes()) {
            return Err(corrupt("Exact run magic is invalid"));
        }
        if read_le(bytes, 8, 2) != 1 {
            return Err(corrupt("Exact run version is unsupported"));
        }
        let kind = match ValueKind::from_tag(bytes[10]) {
            Ok(kind) => kind,
            Err(e) => return Err(e),
        };
        let checksum = slice_of(bytes, 28, 60);
        if bytes[10] != meta.kind.tag() || read_le(bytes, 12, 8) != meta.records || read_le(
            bytes,
            20,
            8,
        ) != meta.payload_bytes || !bytes_eq(checksum.as_slice(), meta.checksum.as_slice()) {
            return Err(corrupt("Exact run metadata changed after creation"));
        }
        let mut at: usize = 60;
        let mut left: u64 = meta.records;
        let ghost whole = read_all(meta.kind, bytes@.skip(60), meta.records as nat);
        let ghost mut seen: Seq<Entry> = Seq::empty();
        assert(whole matches Ok(all) ==> seen + all =~= all);
        while left > 0
            invariant
                60 <= at <= bytes@.len(),
                n == bytes@.len(),
                whole == read_all(meta.kind, bytes@.skip(60), meta.records as nat),
                run_error(*meta, bytes@, digest@) == (match whole {
                    Err(m) => Some(m),
                    Ok(_) => None,
                }),
                whole == (match read_all(meta.kind, bytes@.skip(at as int), left as nat) {
                    Ok(rest) => Ok::<Seq<Entry>, Seq<char>>(seen + rest),
                    Err(m) => Err(m),
                }),
            decreases left,
        {
            match peek_entry(meta.kind, bytes, at) {
                Err(m) => return Err(corrupt(m)),
                Ok(width) => {
                    proof {
                        let p = bytes@.skip(at as int);
                        let e = read_entry(meta.kind, p)->Ok_0;
                        assert(p.skip(entry_width(e.0) as int) =~= bytes@.skip(at + width));
                        match read_all(meta.kind, bytes@.skip(at + width), (left - 1) as nat) {
                            Ok(rest) => {
                                assert(seen + (seq![e] + rest) =~= seen.push(e) + rest);
                            },
                            Err(_) => {},
                        }
                        seen = seen.push(e);
                    }
                    at = at + width;
                },
            }
            left = left - 1;
        }
        if at != n {
            return Err(corrupt("Exact run record count does not consume its payload"));
        }
        Ok(RunCursor { bytes, kind: meta.kind, remaining: meta.records, at: 60 })
    }

    /// Opens a run and finds its bytes whole.
    pub fn open(meta: &RunMeta, bytes: &'a [u8]) -> (r: Result<Self, ProofFrameError>)
        ensures
            match run_error(*meta, bytes@, blake3_digest(behind_header(bytes@))) {
                Some(m) => r matches Err(e) && e@ == ErrorView::CorruptData(m),
                None => r matches Ok(c) && c.wf() && c.spec_kind() == meta.kind && read_all(
                    meta.kind,
                    bytes@.skip(60),
                    meta.records as nat,
                ) == Ok::<Seq<Entry>, Seq<char>>(c.rest()),
            },
    {
        let n: usize = bytes.len();
        let body = if n < 60 {
            Vec::new()
        } else {
            slice_of(bytes, 60, n)
        };
        assert(body@ =~= behind_header(bytes@));
        let digest = digest_of(body.as_slice());
        RunCursor::open_with(meta, bytes, &digest)
    }

    /// Reads the next entry.
    pub fn next(&mut self) -> (r: Option<Record>)
        requires
            old(self).wf(),
        ensures
            final(self).wf(),
            final(self).spec_kind() == old(self).spec_kind(),
            match r {
                Some(record) => old(self).rest().len() > 0 && record@ == old(self).rest()[0]
                    && final(self).rest() == old(self).rest().drop_first(),
                None => old(self).rest().len() == 0 && final(self).rest().len() == 0,
            },
    {
        if self.remaining == 0 {
            return None;
        }
        let ghost p = self.bytes@.skip(self.at as int);
        let ghost e = read_entry(self.kind, p)->Ok_0;
        let n: usize = self.bytes.len();
        let (record, width) = take_entry(self.kind, self.bytes, self.at);
        self.at = self.at + width;
        self.remaining = self.remaining - 1;
        proof {
            assert(p.skip(entry_width(e.0) as int) =~= self.bytes@.skip(self.at as int));
            assert(old(self).rest() == seq![e] + self.rest());
            assert(old(self).rest().drop_first() =~= self.rest());
        }
        Some(record)
    }
}

/// Opens a run and finds its bytes whole and its entries in order.
pub fn open_sorted<'a>(meta: &RunMeta, bytes: &'a [u8]) -> (r: Result<RunCursor<'a>, ProofFrameError>)
    ensures
        match run_error(*meta, bytes@, blake3_digest(behind_header(bytes@))) {
            Some(m) => r matches Err(e) && e@ == ErrorView::CorruptData(m),
            None => {
                let list = read_all(meta.kind, bytes@.skip(60), meta.records as nat)->Ok_0;
                if sorted(list) {
                    r matches Ok(c) && c.wf() && c.spec_kind() == meta.kind && c.rest() == list
                } else {
                    r matches Err(e) && e@ == ErrorView::CorruptData(
                        "Exact run records are out of order"@,
                    )
                }
            },
        },
{
    let mut probe = match RunCursor::open(meta, bytes) {
        Ok(c) => c,
        Err(e) => return Err(e),
    };
    let ghost list = probe.rest();
    let ghost mut n: int = 0;
    let mut last: Option<Record> = None;
    assert(list.skip(0) =~= list);
    loop
        invariant
            probe.wf(),
            0 <= n <= list.len(),
            probe.rest() == list.skip(n),
            last is None <==> n == 0,
            last matches Some(r) ==> r@ == list[n - 1],
            forall|i: int, j: int|
                0 <= i < j < n ==> entry_le(#[trigger] list[i], #[trigger] list[j]),
            run_error(*meta, bytes@, blake3_digest(behind_header(bytes@))) is None,
            read_all(meta.kind, bytes@.skip(60), meta.records as nat) == Ok::<
                Seq<Entry>,
                Seq<char>,
            >(list),
        ensures
            n == list.len(),
            forall|i: int, j: int|
                0 <= i < j < n ==> entry_le(#[trigger] list[i], #[trigger] list[j]),
        decreases list.len() - n,
    {
        match probe.next() {
            None => {
                break;
            },
            Some(record) => {
                proof {
                    assert(list.skip(n)[0] == list[n]);
                    assert(list.skip(n).drop_first() =~= list.skip(n + 1));
                }
                match &last {
                    Some(before) => {
                        if record_less(&record, before) {
                            proof {
                                entry_total(list[n - 1], list[n]);
                                if sorted(list) {
                                    assert(entry_le(list[n - 1], list[n]));
                                    key_total(list[n].0, list[n - 1].0);
                                    assert(false);
                                }
                            }
                            return Err(corrupt("Exact run records are out of order"));
                        }
                        proof {
                            entry_total(record@, list[n - 1]);
                            assert forall|i: int, j: int| 0 <= i < j < n + 1 implies entry_le(
                                #[trigger] list[i],
                                #[trigger] list[j],
                            ) by {
                                if j == n && i < n - 1 {
                                    assert(entry_le(list[i], list[n - 1]));
                                    entry_transitive(list[i], list[n - 1], list[n]);
                                }
                            }
                        }
                    },
                    None => {},
                }
                last = Some(record);
                proof {
                    n = n + 1;
                }
            },
        }
    }
    RunCursor::open(meta, bytes)
}

/// The entries that are read are as many as were asked for.
pub proof fn read_all_count(kind: ValueKind, p: Seq<u8>, n: nat)
    ensures
        read_all(kind, p, n) matches Ok(s) ==> s.len() == n,
    decreases n,
{
    if n > 0 {
        match read_entry(kind, p) {
            Ok(e) => {
                read_all_count(kind, p.skip(entry_width(e.0) as int), (n - 1) as nat);
            },
            Err(_) => {},
        }
    }
}

/// Every entry that is read could have been written.
pub proof fn read_entries_are_readable(kind: ValueKind, p: Seq<u8>, n: nat)
    ensures
        read_all(kind, p, n) matches Ok(s) ==> forall|i: int|
            0 <= i < s.len() ==> readable(#[trigger] s[i], kind),
    decreases n,
{
    if n > 0 {
        match read_entry(kind, p) {
            Ok(e) => {
                read_entries_are_readable(kind, p.skip(entry_width(e.0) as int), (n - 1) as nat);
                spans();
                match kind {
                    ValueKind::Bytes => {},
                    _ => {
                        from_le_round_trip(p.subrange(0, 8));
                    },
                }
            },
            Err(_) => {},
        }
    }
}

/// What stands behind the header of a run.
pub open spec fn behind_header(bytes: Seq<u8>) -> Seq<u8> {
    if bytes.len() < 60 {
        Seq::empty()
    } else {
        bytes.skip(60)
    }
}

/// The width of the entry at a position, or why there is none.
fn peek_entry(kind: ValueKind, bytes: &[u8], at: usize) -> (r: Result<usize, &'static str>)
    requires
        at <= bytes@.len(),
    ensures
        match read_entry(kind, bytes@.skip(at as int)) {
            Ok(e) => r matches Ok(w) && w == entry_width(e.0) && at + w <= bytes@.len(),
            Err(m) => r matches Err(t) && t@ == m,
        },
{
    let n: usize = bytes.len();
    let left: usize = n - at;
    let ghost p = bytes@.skip(at as int);
    match kind {
        ValueKind::Bytes => {
            if left < 4 {
                return Err("Exact run record crosses the payload boundary");
            }
            let length: u64 = read_le(bytes, at, 4);
            assert(p.subrange(0, 4) =~= bytes@.subrange(at as int, at + 4));
            if length > MAX_RECORD_BYTES || length + 12 > left as u64 {
                return Err("Exact run byte length exceeds its bounded payload");
            }
            Ok(length as usize + 12)
        },
        _ => {
            if left < 16 {
                return Err("Exact run record crosses the payload boundary");
            }
            Ok(16)
        },
    }
}

fn signed_of(v: u64) -> (r: i64)
    ensures
        r == signed_word(v as nat),
{
    if v < 0x8000_0000_0000_0000 {
        v as i64
    } else {
        -((u64::MAX - v) as i64) - 1
    }
}

/// The entry at a position, and its width.
fn take_entry(kind: ValueKind, bytes: &[u8], at: usize) -> (r: (Record, usize))
    requires
        at <= bytes@.len(),
        read_entry(kind, bytes@.skip(at as int)) is Ok,
    ensures
        read_entry(kind, bytes@.skip(at as int)) == Ok::<Entry, Seq<char>>(r.0@),
        r.1 == entry_width(r.0@.0),
        at + r.1 <= bytes@.len(),
{
    let n: usize = bytes.len();
    let ghost p = bytes@.skip(at as int);
    match kind {
        ValueKind::Bytes => {
            let length: usize = read_le(bytes, at, 4) as usize;
            proof {
                assert(p.subrange(0, 4) =~= bytes@.subrange(at as int, at + 4));
                spans();
                from_le_round_trip(p.subrange(0, 4));
            }
            let value = slice_of(bytes, at + 4, at + 4 + length);
            let row: u64 = read_le(bytes, at + 4 + length, 8);
            proof {
                assert(p.subrange(4, 4 + length as int) =~= bytes@.subrange(
                    at + 4,
                    at + 4 + length,
                ));
                assert(p.subrange(4 + length as int, 12 + length as int) =~= bytes@.subrange(
                    at + 4 + length,
                    at + 12 + length,
                ));
            }
            (Record { value: OwnedValue::Bytes(value), row }, length + 12)
        },
        _ => {
            let v: u64 = read_le(bytes, at, 8);
            let row: u64 = read_le(bytes, at + 8, 8);
            proof {
                assert(p.subrange(0, 8) =~= bytes@.subrange(at as int, at + 8));
                assert(p.subrange(8, 16) =~= bytes@.subrange(at + 8, at + 16));
            }
            let value = match kind {
                ValueKind::I64 => OwnedValue::I64(signed_of(v)),
                ValueKind::U64 => OwnedValue::U64(v),
                _ => OwnedValue::F64(v),
            };
            (Record { value, row }, 16)
        },
    }
}

/// The bytes that were written for a list of entries are found whole, and give back the
/// list.
pub proof fn written_run_is_whole(meta: RunMeta, kind: ValueKind, s: Seq<Entry>, bytes: Seq<u8>)
    requires
        describes(meta, kind, s),
        bytes == run_bytes(kind, s, meta.checksum@),
        forall|i: int| 0 <= i < s.len() ==> readable(#[trigger] s[i], kind),
        meta.payload_bytes <= u64::MAX - 60,
    ensures
        run_error(meta, bytes, blake3_digest(behind_header(bytes))) is None,
        read_all(kind, bytes.skip(60), s.len()) == Ok::<Seq<Entry>, Seq<char>>(s),
{
    let body = payload(s);
    let head = run_header(kind, s.len(), body, meta.checksum@);
    spans();
    reveal_strlit("PFRUN001");
    vstd::utf8::is_ascii_chars_encode_utf8("PFRUN001"@);
    assert(utf8("PFRUN001"@).len() == 8);
    le_round_trip(1, 2);
    le_round_trip(s.len(), 8);
    le_round_trip(body.len(), 8);
    assert(meta.checksum@.len() == 32);
    assert(head.len() == 60);
    assert(bytes.skip(60) =~= body);
    assert(behind_header(bytes) =~= body);
    assert(bytes.subrange(0, 8) =~= utf8("PFRUN001"@));
    assert(bytes.subrange(8, 10) =~= le(1, 2));
    assert(bytes[10] == kind_tag(kind));
    assert(bytes.subrange(12, 20) =~= le(s.len(), 8));
    assert(bytes.subrange(20, 28) =~= le(body.len(), 8));
    assert(bytes.subrange(28, 60) =~= meta.checksum@);
    run_reads_what_was_written(kind, s);
}

} // verus!
