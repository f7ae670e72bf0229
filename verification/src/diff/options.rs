//! The choices of a diff, and the steps between its two scans.

use crate::contract::ast::outcome;
use crate::diff::accumulate::{Accumulator, DiffMetrics, DiffOutput};
use crate::diff::ledger::{sole, TempLedger};
use crate::diff::partitioner::PartitionedRows;
use crate::diff::record::{PartitionLimits, PARTITIONS};
use crate::diff::rows::{column_views, same_signature, ColumnSchema, ColumnView};
use crate::error::{ErrorView, ProofFrameError};
use crate::resource::{stop_when, CancellationToken, ResourceAccount, ResourceKind, ResourceLimits};
use crate::text::{text, texts};
use vstd::prelude::*;

verus! {

/// The longest record that is read back.
pub const MAX_PARTITION_RECORD_BYTES: u64 = 67108864;

/// The choices of a diff.
pub struct DiffOptions {
    pub resources: ResourceLimits,
    pub max_samples: usize,
    pub output: Option<DiffOutput>,
    pub cancellation: CancellationToken,
}

impl Default for DiffOptions {
    fn default() -> (r: Self)
        ensures
            r.max_samples == r.resources.max_samples,
            r.resources.max_samples == 100,
            r.resources.max_memory_bytes == 512 * 1024 * 1024,
            r.resources.max_temp_bytes == 4 * 1024 * 1024 * 1024,
            r.resources.max_output_records == 100_000,
            r.output is None,
    {
        let resources = ResourceLimits::default();
        DiffOptions {
            max_samples: resources.max_samples,
            resources,
            output: None,
            cancellation: CancellationToken::new(),
        }
    }
}

impl DiffOptions {
    /// The most samples of each kind: those asked for, as far as the limits allow.
    pub fn sample_limit(&self) -> (r: usize)
        ensures
            r == if self.max_samples < self.resources.max_samples {
                self.max_samples
            } else {
                self.resources.max_samples
            },
    {
        if self.max_samples < self.resources.max_samples {
            self.max_samples
        } else {
            self.resources.max_samples
        }
    }

    /// Begins a diff by key columns: an account under the limits, and a ledger of its
    /// temporary storage.
    pub fn begin(&self, keys: &Vec<String>, cancelled: bool) -> (r: Result<
        (ResourceAccount, TempLedger),
        ProofFrameError,
    >)
        ensures
            outcome(
                r,
                if keys@.len() == 0 {
                    Some(ErrorView::NoKeyColumns)
                } else if cancelled {
                    Some(ErrorView::Cancelled)
                } else {
                    None
                },
            ),
            r matches Ok(pair) ==> {
                &&& sole(pair.0, pair.1)
                &&& pair.1.in_use() == 0
                &&& pair.0.spec_limits() == self.resources
                &&& pair.0.nodes().len() == 1
                &&& pair.0.nodes()[0].used(ResourceKind::Memory) == 0
                &&& pair.0.nodes()[0].cap(ResourceKind::Memory) == self.resources.max_memory_bytes
            },
    {
        if keys.len() == 0 {
            return Err(ProofFrameError::NoKeyColumns);
        }
        stop_when(cancelled)?;
        let account = ResourceAccount::root(self.resources);
        let temp = TempLedger::new(0);
        Ok((account, temp))
    }
}

/// The error of two datasets that cannot be compared row by row.
pub open spec fn comparison_error(before: Seq<ColumnView>, after: Seq<ColumnView>) -> Option<
    ErrorView,
> {
    if before != after {
        Some(ErrorView::SchemaMismatch("normalize columns before row-level diff"@))
    } else {
        None
    }
}

/// Rejects two datasets that cannot be compared row by row.
pub fn check_comparable(before: &PartitionedRows, after: &PartitionedRows) -> (r: Result<
    (),
    ProofFrameError,
>)
    ensures
        outcome(
            r,
            comparison_error(column_views(before.signature@), column_views(after.signature@)),
        ),
{
    if same_signature(&before.signature, &after.signature) {
        Ok(())
    } else {
        Err(ProofFrameError::SchemaMismatch(text("normalize columns before row-level diff")))
    }
}

/// The names of columns.
pub open spec fn column_labels(columns: Seq<ColumnView>) -> Seq<Seq<char>> {
    Seq::new(columns.len(), |i: int| columns[i].name)
}

/// The names of columns.
pub fn column_names(signature: &Vec<ColumnSchema>) -> (r: Vec<String>)
    ensures
        texts(r@) == column_labels(column_views(signature@)),
{
    let ghost wanted = column_labels(column_views(signature@));
    let mut out: Vec<String> = Vec::new();
    let mut i: usize = 0;
    while i < signature.len()
        invariant
            i <= signature@.len(),
            wanted == column_labels(column_views(signature@)),
            texts(out@) == wanted.take(i as int),
        decreases signature@.len() - i,
    {
        let ghost before = out@;
        out.push(signature[i].name.clone());
        assert(texts(out@) =~= texts(before).push(wanted[i as int]));
        assert(wanted.take(i + 1) =~= wanted.take(i as int).push(wanted[i as int]));
        i = i + 1;
    }
    assert(wanted.take(signature@.len() as int) =~= wanted);
    out
}

/// What the partitions of a diff with as many columns are read back with.
pub fn reader_limits(columns: usize) -> (r: Result<PartitionLimits, ProofFrameError>)
    ensures
        if columns <= u32::MAX {
            r matches Ok(limits) && limits.max_record_bytes == MAX_PARTITION_RECORD_BYTES
                && limits.max_columns == columns
        } else {
            r matches Err(e) && e@ == ErrorView::CorruptData("Diff schema exceeds u32 columns"@)
        },
{
    if columns as u64 <= 0xFFFF_FFFF {
        Ok(
            PartitionLimits {
                max_record_bytes: MAX_PARTITION_RECORD_BYTES,
                max_columns: columns as u32,
            },
        )
    } else {
        Err(ProofFrameError::CorruptData(text("Diff schema exceeds u32 columns")))
    }
}

/// What a diff took.
pub fn metrics_of(acc: &Accumulator, account: &ResourceAccount, temp: &TempLedger) -> (r: DiffMetrics)
    requires
        account.wf(),
    ensures
        r.partitions == PARTITIONS,
        r.temp_bytes == temp.in_use(),
        r.peak_memory_bytes == account.nodes()[0].peak(ResourceKind::Memory),
        r.peak_temp_bytes == account.nodes()[0].peak(ResourceKind::Temp),
        r.output_records == acc.written().0,
{
    DiffMetrics {
        partitions: PARTITIONS,
        temp_bytes: temp.used(),
        peak_memory_bytes: account.peak_memory_used(0),
        peak_temp_bytes: account.peak_temp_used(0),
        output_records: acc.output_records(),
    }
}

} // verus!
