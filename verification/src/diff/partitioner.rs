//! Spreading the rows of one dataset over partitions by the hash of their keys.

use crate::contract::ast::outcome;
use crate::diff::ledger::{
    sole, sole_ledger_gives_its_limit, sole_ledger_stays, sole_refusal, temp_refusal, TempLedger,
};
use crate::diff::partition::{partition_header, payload_of, Keyed, PartitionWriter};
use crate::diff::record::{framed, record_bytes, RowEntry, PARTITIONS};
use crate::diff::rows::{
    column_views, key_error, key_indexes, keyed_batch, partition_of, resolved, row_entry,
    row_error, row_partition, row_view, schema_signature, signature_digest, signature_of,
    signature_stream, ColumnSchema, ColumnView,
};
use crate::digest::blake3_digest;
use crate::error::{ErrorView, ProofFrameError};
use crate::resource::{
    on_path, released, stop_when, MemoryReservation, ResourceAccount, ResourceKind,
};
use crate::text::{text, texts};
use crate::value::{Batch, Schema};
use vstd::prelude::*;

verus! {

/// The bytes that the headers of all partitions take.
pub const HEADERS_BYTES: u64 = 5888;

/// The memory that the writers of all partitions take.
pub const WRITERS_BYTES: u64 = 589824;

/// The rows of a batch, each under its key.
pub open spec fn batch_rows(batch: Batch, indexes: Seq<usize>, shown: Seq<Vec<String>>) -> Seq<
    Keyed,
> {
    Seq::new(batch.rows as nat, |row: int| row_view(batch, row, indexes, shown))
}

/// The rows of a partition, in order.
pub open spec fn rows_in(partition: int, rows: Seq<Keyed>) -> Seq<Keyed>
    decreases rows.len(),
{
    if rows.len() == 0 {
        Seq::empty()
    } else if partition_of(rows.last().0) == partition {
        rows_in(partition, rows.drop_last()).push(rows.last())
    } else {
        rows_in(partition, rows.drop_last())
    }
}

/// The bytes that rows take in all partitions.
pub open spec fn stored_bytes(rows: Seq<Keyed>) -> nat
    decreases rows.len(),
{
    if rows.len() == 0 {
        0
    } else {
        stored_bytes(rows.drop_last()) + framed(
            record_bytes(rows.last().0, rows.last().1),
        ).len()
    }
}

/// Bytes to store at the end of a partition.
#[derive(Debug)]
pub struct Chunk {
    pub partition: usize,
    pub bytes: Vec<u8>,
}

/// The chunks of rows, in order.
pub open spec fn chunks_of(chunks: Seq<Chunk>, rows: Seq<Keyed>) -> bool {
    &&& chunks.len() == rows.len()
    &&& forall|i: int|
        0 <= i < rows.len() ==> (#[trigger] chunks[i]).partition == partition_of(rows[i].0)
            && chunks[i].bytes@ == framed(record_bytes(rows[i].0, rows[i].1))
}

/// A dataset whose rows all stand in partitions, with the header of each.
#[derive(Debug)]
pub struct PartitionedRows {
    pub signature: Vec<ColumnSchema>,
    pub schema_digest: [u8; 32],
    pub rows: usize,
    pub headers: Vec<Vec<u8>>,
}

/// The rows of one dataset on their way into partitions.
pub struct Partitioner {
    signature: Vec<ColumnSchema>,
    schema_digest: [u8; 32],
    indexes: Vec<usize>,
    writers: Vec<PartitionWriter>,
    rows: usize,
    memory: MemoryReservation,
}

/// Why the record of a row with so many values is not stored.
pub open spec fn stored_refusal(values: nat, record: Seq<u8>, used: nat, limit: u64) -> Option<
    ErrorView,
> {
    if values > u32::MAX {
        Some(ErrorView::CorruptData("Diff row has more than u32 columns"@))
    } else if record.len() > u64::MAX - 8 {
        Some(ErrorView::CorruptData("Diff partition payload length overflowed"@))
    } else {
        sole_refusal(used, framed(record).len(), limit)
    }
}

/// Why a row is not taken, after so many rows and with so much storage in use.
pub open spec fn row_refused(
    schema: Schema,
    batch: Batch,
    indexes: Seq<usize>,
    shown: Seq<Vec<String>>,
    row: int,
    count: nat,
    used: nat,
    limit: u64,
) -> Option<ErrorView> {
    let view = row_view(batch, row, indexes, shown);
    if count >= usize::MAX {
        Some(ErrorView::CorruptData("Diff row count overflowed"@))
    } else if row_error(schema, batch, row, indexes) is Some {
        row_error(schema, batch, row, indexes)
    } else {
        stored_refusal(batch.columns@.len(), record_bytes(view.0, view.1), used, limit)
    }
}

/// Why the first of the rows of a batch that is not taken is not, if there is one among the
/// first `n`.
pub open spec fn first_refused(
    schema: Schema,
    batch: Batch,
    indexes: Seq<usize>,
    shown: Seq<Vec<String>>,
    count: nat,
    used: nat,
    limit: u64,
    n: nat,
) -> Option<ErrorView>
    decreases n,
{
    if n == 0 {
        None
    } else {
        match first_refused(schema, batch, indexes, shown, count, used, limit, (n - 1) as nat) {
            Some(e) => Some(e),
            None => row_refused(
                schema,
                batch,
                indexes,
                shown,
                n - 1,
                (count + n - 1) as nat,
                used + stored_bytes(batch_rows(batch, indexes, shown).take(n - 1)),
                limit,
            ),
        }
    }
}

proof fn first_refused_stays(
    schema: Schema,
    batch: Batch,
    indexes: Seq<usize>,
    shown: Seq<Vec<String>>,
    count: nat,
    used: nat,
    limit: u64,
    early: nat,
    late: nat,
)
    requires
        early <= late,
        first_refused(schema, batch, indexes, shown, count, used, limit, early) is Some,
    ensures
        first_refused(schema, batch, indexes, shown, count, used, limit, late) == first_refused(
            schema,
            batch,
            indexes,
            shown,
            count,
            used,
            limit,
            early,
        ),
    decreases late,
{
    if early < late {
        first_refused_stays(
            schema,
            batch,
            indexes,
            shown,
            count,
            used,
            limit,
            early,
            (late - 1) as nat,
        );
    }
}

impl Partitioner {
    /// The columns of the dataset, as a diff compares them.
    pub closed spec fn columns(&self) -> Seq<ColumnView> {
        column_views(self.signature@)
    }

    /// The positions of the key columns.
    pub closed spec fn spec_indexes(&self) -> Seq<usize> {
        self.indexes@
    }

    /// The rows so far.
    pub closed spec fn count(&self) -> usize {
        self.rows
    }

    /// The payload of a partition so far.
    pub closed spec fn payload(&self, partition: int) -> Seq<u8> {
        self.writers@[partition].payload()
    }

    /// The number of records of a partition so far.
    pub closed spec fn records(&self, partition: int) -> u64 {
        self.writers@[partition].count()
    }

    /// The memory that is held for the writers.
    pub closed spec fn held(&self) -> MemoryReservation {
        self.memory
    }

    /// There is a writer for each partition, under the signature of the schema, and no
    /// partition holds more than the bytes in use.
    pub closed spec fn wf(&self, temp: TempLedger) -> bool {
        &&& self.writers@.len() == PARTITIONS
        &&& self.schema_digest@ == blake3_digest(signature_stream(self.columns()))
        &&& forall|i: int|
            0 <= i < self.indexes@.len() ==> (#[trigger] self.indexes@[i])
                < self.signature@.len()
        &&& forall|p: int|
            0 <= p < PARTITIONS ==> {
                &&& (#[trigger] self.writers@[p]).wf()
                &&& self.writers@[p].schema() == self.schema_digest@
                &&& self.writers@[p].count() <= self.writers@[p].payload().len()
                &&& self.writers@[p].payload().len() <= temp.in_use()
            }
    }

    /// The error of beginning with a schema.
    pub open spec fn begin_error(
        schema: Schema,
        keys: Seq<Seq<char>>,
        account: ResourceAccount,
        temp: TempLedger,
    ) -> Option<ErrorView> {
        if key_error(schema, keys, keys.len()) is Some {
            key_error(schema, keys, keys.len())
        } else if temp_refusal(account, temp, HEADERS_BYTES) is Some {
            temp_refusal(account, temp, HEADERS_BYTES)
        } else if account.nodes()[0].fits(ResourceKind::Memory, WRITERS_BYTES) {
            None
        } else {
            Some(
                ErrorView::ResourceLimit {
                    resource: ResourceKind::Memory.label(),
                    requested: WRITERS_BYTES,
                    used: account.nodes()[0].used(ResourceKind::Memory),
                    limit: account.nodes()[0].cap(ResourceKind::Memory),
                },
            )
        }
    }

    /// Begins with the schema of a dataset.
    pub fn begin(
        schema: &Schema,
        keys: &Vec<String>,
        account: &mut ResourceAccount,
        temp: &mut TempLedger,
    ) -> (r: Result<Self, ProofFrameError>)
        requires
            sole(*old(account), *old(temp)),
        ensures
            outcome(r, Self::begin_error(*schema, texts(keys@), *old(account), *old(temp))),
            sole(*final(account), *final(temp)),
            final(account).spec_limits() == old(account).spec_limits(),
            final(account).nodes().len() == old(account).nodes().len(),
            r matches Ok(parts) ==> {
                &&& parts.wf(*final(temp))
                &&& parts.columns() == signature_of(*schema)
                &&& resolved(*schema, texts(keys@), parts.spec_indexes())
                &&& parts.count() == 0
                &&& forall|p: int|
                    0 <= p < PARTITIONS ==> #[trigger] parts.payload(p) == Seq::<u8>::empty()
                        && parts.records(p) == 0
                &&& final(temp).in_use() == old(temp).in_use() + HEADERS_BYTES
                &&& parts.held().charge().node() == 0
                &&& parts.held().charge().kind() == ResourceKind::Memory
                &&& parts.held().charge().bytes() == WRITERS_BYTES
            },
    {
        let indexes = key_indexes(schema, keys)?;
        let signature = schema_signature(schema);
        let schema_digest = signature_digest(&signature);
        let taken = temp.reserve_additional(account, HEADERS_BYTES);
        proof {
            sole_ledger_stays(*old(account), *account, *old(temp), *temp, HEADERS_BYTES, taken);
        }
        taken?;
        let ghost between = account.nodes();
        proof {
            assert(on_path(old(account).nodes(), 0, 0));
            assert(between[0].used(ResourceKind::Memory) == old(account).nodes()[0].used(
                ResourceKind::Memory,
            ));
            assert(between[0].cap(ResourceKind::Memory) == old(account).nodes()[0].cap(
                ResourceKind::Memory,
            ));
        }
        let memory = account.try_reserve_memory(0, WRITERS_BYTES)?;
        proof {
            assert(on_path(between, 0, 0));
            assert(account.nodes()[0].used(ResourceKind::Temp) == between[0].used(
                ResourceKind::Temp,
            ));
        }
        let mut writers: Vec<PartitionWriter> = Vec::new();
        let mut i: usize = 0;
        while i < PARTITIONS
            invariant
                i <= PARTITIONS,
                writers@.len() == i,
                forall|p: int|
                    0 <= p < i ==> (#[trigger] writers@[p]).wf() && writers@[p].payload() == Seq::<
                        u8,
                    >::empty() && writers@[p].count() == 0 && writers@[p].schema()
                        == schema_digest@,
            decreases PARTITIONS - i,
        {
            writers.push(PartitionWriter::create(schema_digest));
            i = i + 1;
        }
        assert(column_views(signature@).len() == signature@.len());
        Ok(Partitioner { signature, schema_digest, indexes, writers, rows: 0, memory })
    }

    /// A row as the partitions take it.
    fn write_row(
        &mut self,
        key: &[u8],
        entry: &RowEntry,
        account: &mut ResourceAccount,
        temp: &mut TempLedger,
    ) -> (r: Result<Chunk, ProofFrameError>)
        requires
            old(self).wf(*old(temp)),
            sole(*old(account), *old(temp)),
            old(self).count() < usize::MAX,
        ensures
            sole(*final(account), *final(temp)),
            final(account).spec_limits() == old(account).spec_limits(),
            final(account).nodes().len() == old(account).nodes().len(),
            r is Ok <==> entry.values@.len() <= u32::MAX && old(temp).in_use() + framed(
                record_bytes(key@, entry@),
            ).len() <= old(account).spec_limits().max_temp_bytes,
            r matches Ok(chunk) ==> {
                &&& final(self).wf(*final(temp))
                &&& final(self).columns() == old(self).columns()
                &&& final(self).spec_indexes() == old(self).spec_indexes()
                &&& final(self).held() == old(self).held()
                &&& final(self).count() == old(self).count() + 1
                &&& chunk.partition == partition_of(key@)
                &&& chunk.bytes@ == framed(record_bytes(key@, entry@))
                &&& final(temp).in_use() == old(temp).in_use() + chunk.bytes@.len()
                &&& forall|p: int|
                    0 <= p < PARTITIONS ==> #[trigger] final(self).payload(p) == (if p
                        == partition_of(key@) {
                        old(self).payload(p) + chunk.bytes@
                    } else {
                        old(self).payload(p)
                    }) && final(self).records(p) == old(self).records(p) + (if p
                        == partition_of(key@) {
                        1int
                    } else {
                        0int
                    })
            },
            outcome(
                r,
                stored_refusal(
                    entry.values@.len(),
                    record_bytes(key@, entry@),
                    old(temp).in_use(),
                    old(account).spec_limits().max_temp_bytes,
                ),
            ),
    {
        let partition: usize = row_partition(key);
        let ghost size = framed(record_bytes(key@, entry@)).len();
        proof {
            assert(self.writers@[partition as int].wf());
            crate::bytes::le_len(record_bytes(key@, entry@).len(), 8);
            if size <= u64::MAX {
                sole_ledger_gives_its_limit(*account, *temp, size as u64);
            }
        }
        let bytes = self.writers[partition].write_record(key, entry, account, temp)?;
        self.rows = self.rows + 1;
        Ok(Chunk { partition, bytes })
    }

    /// Whether a batch can be taken: all of its values have encodings, and there is room for
    /// its bytes and its rows.
    pub open spec fn takes(
        self,
        schema: Schema,
        batch: Batch,
        shown: Seq<Vec<String>>,
        used: nat,
        limit: u64,
    ) -> bool {
        let rows = batch_rows(batch, self.spec_indexes(), shown);
        &&& forall|row: int|
            0 <= row < batch.rows ==> #[trigger] row_error(
                schema,
                batch,
                row,
                self.spec_indexes(),
            ) is None
        &&& batch.rows > 0 ==> used + stored_bytes(rows) <= limit
        &&& self.count() + batch.rows <= usize::MAX
        &&& batch.rows > 0 ==> batch.columns@.len() <= u32::MAX
    }

    /// Adds the rows of a batch: each goes to the end of the partition of its key.
    pub fn update(
        &mut self,
        schema: &Schema,
        batch: &Batch,
        shown: &Vec<Vec<String>>,
        cancelled: bool,
        account: &mut ResourceAccount,
        temp: &mut TempLedger,
    ) -> (r: Result<Vec<Chunk>, ProofFrameError>)
        requires
            old(self).wf(*old(temp)),
            sole(*old(account), *old(temp)),
            old(self).columns() == signature_of(*schema),
            keyed_batch(*schema, *batch, old(self).spec_indexes(), shown@),
        ensures
            sole(*final(account), *final(temp)),
            final(account).spec_limits() == old(account).spec_limits(),
            final(account).nodes().len() == old(account).nodes().len(),
            cancelled ==> (r matches Err(e) && e@ == ErrorView::Cancelled),
            !cancelled ==> (r is Ok <==> old(self).takes(
                *schema,
                *batch,
                shown@,
                old(temp).in_use(),
                old(account).spec_limits().max_temp_bytes,
            )),
            r matches Ok(chunks) ==> {
                let rows = batch_rows(*batch, old(self).spec_indexes(), shown@);
                &&& final(self).wf(*final(temp))
                &&& final(self).columns() == old(self).columns()
                &&& final(self).spec_indexes() == old(self).spec_indexes()
                &&& final(self).held() == old(self).held()
                &&& final(self).count() == old(self).count() + batch.rows
                &&& chunks_of(chunks@, rows)
                &&& final(temp).in_use() == old(temp).in_use() + stored_bytes(rows)
                &&& forall|p: int|
                    0 <= p < PARTITIONS ==> #[trigger] final(self).payload(p) == old(
                        self,
                    ).payload(p) + payload_of(rows_in(p, rows)) && final(self).records(p) == old(
                        self,
                    ).records(p) + rows_in(p, rows).len()
            },
            !cancelled ==> outcome(
                r,
                first_refused(
                    *schema,
                    *batch,
                    old(self).spec_indexes(),
                    shown@,
                    old(self).count() as nat,
                    old(temp).in_use(),
                    old(account).spec_limits().max_temp_bytes,
                    batch.rows as nat,
                ),
            ),
    {
        stop_when(cancelled)?;
        self.add_rows(schema, batch, shown, account, temp)
    }

    /// Adds the rows of a batch, one after the other.
    #[verifier::spinoff_prover]
    #[verifier::rlimit(60)]
    fn add_rows(
        &mut self,
        schema: &Schema,
        batch: &Batch,
        shown: &Vec<Vec<String>>,
        account: &mut ResourceAccount,
        temp: &mut TempLedger,
    ) -> (r: Result<Vec<Chunk>, ProofFrameError>)
        requires
            old(self).wf(*old(temp)),
            sole(*old(account), *old(temp)),
            old(self).columns() == signature_of(*schema),
            keyed_batch(*schema, *batch, old(self).spec_indexes(), shown@),
        ensures
            sole(*final(account), *final(temp)),
            final(account).spec_limits() == old(account).spec_limits(),
            final(account).nodes().len() == old(account).nodes().len(),
            r is Ok <==> old(self).takes(
                *schema,
                *batch,
                shown@,
                old(temp).in_use(),
                old(account).spec_limits().max_temp_bytes,
            ),
            r matches Ok(chunks) ==> {
                let rows = batch_rows(*batch, old(self).spec_indexes(), shown@);
                &&& final(self).wf(*final(temp))
                &&& final(self).columns() == old(self).columns()
                &&& final(self).spec_indexes() == old(self).spec_indexes()
                &&& final(self).held() == old(self).held()
                &&& final(self).count() == old(self).count() + batch.rows
                &&& chunks_of(chunks@, rows)
                &&& final(temp).in_use() == old(temp).in_use() + stored_bytes(rows)
                &&& forall|p: int|
                    0 <= p < PARTITIONS ==> #[trigger] final(self).payload(p) == old(
                        self,
                    ).payload(p) + payload_of(rows_in(p, rows)) && final(self).records(p) == old(
                        self,
                    ).records(p) + rows_in(p, rows).len()
            },
            outcome(
                r,
                first_refused(
                    *schema,
                    *batch,
                    old(self).spec_indexes(),
                    shown@,
                    old(self).count() as nat,
                    old(temp).in_use(),
                    old(account).spec_limits().max_temp_bytes,
                    batch.rows as nat,
                ),
            ),
    {
        let ghost indexes = self.indexes@;
        let ghost all = batch_rows(*batch, indexes, shown@);
        let ghost limit = account.spec_limits().max_temp_bytes;
        let mut chunks: Vec<Chunk> = Vec::new();
        let mut row: usize = 0;
        proof {
            assert(all.take(0) =~= Seq::empty());
            assert forall|p: int| 0 <= p < PARTITIONS implies #[trigger] self.payload(p) == old(
                self,
            ).payload(p) + payload_of(rows_in(p, all.take(0))) by {
                assert(self.payload(p) + Seq::<u8>::empty() =~= self.payload(p));
            }
        }
        while row < batch.rows
            invariant
                row <= batch.rows,
                sole(*account, *temp),
                account.spec_limits() == old(account).spec_limits(),
                account.nodes().len() == old(account).nodes().len(),
                limit == account.spec_limits().max_temp_bytes,
                keyed_batch(*schema, *batch, indexes, shown@),
                indexes == old(self).spec_indexes(),
                self.spec_indexes() == indexes,
                self.columns() == old(self).columns(),
                self.held() == old(self).held(),
                self.wf(*temp),
                all == batch_rows(*batch, indexes, shown@),
                self.count() == old(self).count() + row,
                chunks_of(chunks@, all.take(row as int)),
                temp.in_use() == old(temp).in_use() + stored_bytes(all.take(row as int)),
                row > 0 ==> batch.columns@.len() <= u32::MAX,
                row > 0 ==> temp.in_use() <= limit,
                forall|k: int|
                    0 <= k < row ==> #[trigger] row_error(*schema, *batch, k, indexes) is None,
                first_refused(
                    *schema,
                    *batch,
                    indexes,
                    shown@,
                    old(self).count() as nat,
                    old(temp).in_use(),
                    limit,
                    row as nat,
                ) is None,
                forall|p: int|
                    0 <= p < PARTITIONS ==> #[trigger] self.payload(p) == old(self).payload(p)
                        + payload_of(rows_in(p, all.take(row as int))) && self.records(p) == old(
                        self,
                    ).records(p) + rows_in(p, all.take(row as int)).len(),
            decreases batch.rows - row,
        {
            let ghost now = all.take(row + 1);
            proof {
                assert(now.drop_last() =~= all.take(row as int));
                stored_bytes_grow(all, row + 1);
                if first_refused(
                    *schema,
                    *batch,
                    indexes,
                    shown@,
                    old(self).count() as nat,
                    old(temp).in_use(),
                    limit,
                    (row + 1) as nat,
                ) is Some {
                    first_refused_stays(
                        *schema,
                        *batch,
                        indexes,
                        shown@,
                        old(self).count() as nat,
                        old(temp).in_use(),
                        limit,
                        (row + 1) as nat,
                        batch.rows as nat,
                    );
                }
                assert(now.last() == row_view(*batch, row as int, indexes, shown@));
            }
            if self.rows == usize::MAX {
                return Err(ProofFrameError::CorruptData(text("Diff row count overflowed")));
            }
            let (key, entry) = row_entry(schema, batch, &self.indexes, shown, row)?;
            assert((key@, entry@) == now.last());
            let ghost before = *self;
            let chunk = self.write_row(key.as_slice(), &entry, account, temp)?;
            let ghost listed = chunks@;
            chunks.push(chunk);
            proof {
                assert forall|i: int| 0 <= i < now.len() implies (
                #[trigger] chunks@[i]).partition == partition_of(now[i].0) && chunks@[i].bytes@
                    == framed(record_bytes(now[i].0, now[i].1)) by {
                    if i < row {
                        assert(chunks@[i] == listed[i]);
                        assert(now[i] == all.take(row as int)[i]);
                    }
                }
                assert forall|p: int| 0 <= p < PARTITIONS implies #[trigger] self.payload(p)
                    == old(self).payload(p) + payload_of(rows_in(p, now)) && self.records(p)
                    == old(self).records(p) + rows_in(p, now).len() by {
                    assert(before.payload(p) == old(self).payload(p) + payload_of(
                        rows_in(p, all.take(row as int)),
                    ));
                    if p == partition_of(key@) {
                        let mine = rows_in(p, all.take(row as int));
                        assert(mine.push(now.last()).drop_last() =~= mine);
                        assert(old(self).payload(p) + payload_of(mine) + chunks@[row as int].bytes@
                            =~= old(self).payload(p) + (payload_of(mine) + framed(
                            record_bytes(now.last().0, now.last().1),
                        )));
                    }
                }
            }
            row = row + 1;
        }
        assert(all.take(batch.rows as int) =~= all);
        Ok(chunks)
    }

    /// Ends the partitions: the header of each goes before its bytes, and the memory of the
    /// writers is given back.
    pub fn finish(self, account: &mut ResourceAccount) -> (r: PartitionedRows)
        requires
            exists|temp: TempLedger| self.wf(temp),
            old(account).wf(),
            self.held().charge().node() == 0,
        ensures
            column_views(r.signature@) == self.columns(),
            r.schema_digest@ == blake3_digest(signature_stream(self.columns())),
            r.rows == self.count(),
            r.headers@.len() == PARTITIONS,
            forall|p: int|
                0 <= p < PARTITIONS ==> (#[trigger] r.headers@[p])@ == partition_header(
                    r.schema_digest@,
                    self.records(p) as nat,
                    self.payload(p),
                ),
            final(account).wf(),
            final(account).spec_limits() == old(account).spec_limits(),
            released(
                old(account).nodes(),
                final(account).nodes(),
                0,
                self.held().charge().kind(),
                self.held().charge().bytes() as int,
            ),
    {
        let ghost whole = self.writers@;
        let ghost digest = self.schema_digest@;
        let mut writers = self.writers;
        let mut headers: Vec<Vec<u8>> = Vec::new();
        let mut i: usize = 0;
        while i < PARTITIONS
            invariant
                i <= PARTITIONS,
                whole.len() == PARTITIONS,
                writers@ == whole.skip(i as int),
                headers@.len() == i,
                forall|p: int|
                    0 <= p < PARTITIONS ==> (#[trigger] whole[p]).wf() && whole[p].schema()
                        == digest,
                forall|p: int|
                    0 <= p < i ==> (#[trigger] headers@[p])@ == partition_header(
                        digest,
                        whole[p].count() as nat,
                        whole[p].payload(),
                    ),
            decreases PARTITIONS - i,
        {
            let ghost rest = writers@;
            let writer = writers.remove(0);
            assert(writer == whole[i as int]);
            assert(writers@ =~= whole.skip(i + 1));
            headers.push(writer.finish());
            i = i + 1;
        }
        account.release_memory(self.memory);
        PartitionedRows {
            signature: self.signature,
            schema_digest: self.schema_digest,
            rows: self.rows,
            headers,
        }
    }
}

/// More rows take no fewer bytes.
proof fn stored_bytes_grow(rows: Seq<Keyed>, n: int)
    requires
        0 <= n <= rows.len(),
    ensures
        stored_bytes(rows.take(n)) <= stored_bytes(rows),
    decreases rows.len() - n,
{
    if n < rows.len() {
        stored_bytes_grow(rows, n + 1);
        assert(rows.take(n + 1).drop_last() =~= rows.take(n));
    } else {
        assert(rows.take(n) =~= rows);
    }
}

} // verus!
