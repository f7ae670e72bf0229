use proofframe::diff::accumulate::{Accumulator, DiffOutput, DiffReport};
use proofframe::diff::compare::process_partition;
use proofframe::diff::ledger::TempLedger;
use proofframe::diff::options::{
    check_comparable, column_names, metrics_of, reader_limits, DiffOptions,
};
use proofframe::diff::partition::{PartitionReader, PartitionWriter};
use proofframe::diff::partitioner::{PartitionedRows, Partitioner};
use proofframe::diff::record::{PartitionLimits, RowEntry};
use proofframe::diff::rows::row_partition;
use proofframe::value::{Batch, Cell, DataType, Field, Schema};
use proofframe::{
    fuzz_partition_bytes, ErrorCode, ProofFrameError, ResourceAccount, ResourceLimits,
};

fn entry() -> RowEntry {
    RowEntry {
        display_key: "key".to_string(),
        values: vec![Some(b"value".to_vec())],
        hash: [9; 32],
    }
}

fn one_record() -> Vec<u8> {
    let mut account = ResourceAccount::root(ResourceLimits::default());
    let mut temp = TempLedger::new(0);
    let mut writer = PartitionWriter::create([7; 32]);
    let body = writer.write_record(b"key", &entry(), &mut account, &mut temp).unwrap();
    let mut bytes = writer.finish();
    bytes.extend(body);
    bytes
}

fn read_all(bytes: &[u8], limits: PartitionLimits) -> Result<usize, ProofFrameError> {
    let mut reader = PartitionReader::open(bytes, &[7; 32], limits)?;
    let mut count = 0;
    while let Some(_) = reader.next()? {
        count += 1;
    }
    Ok(count)
}

fn wide() -> PartitionLimits {
    PartitionLimits { max_record_bytes: 1024, max_columns: 4 }
}

#[test]
fn every_truncated_file_boundary_fails_as_corruption() {
    let bytes = one_record();
    assert_eq!(read_all(&bytes, wide()).unwrap(), 1);
    for end in 0..bytes.len() {
        let error = read_all(&bytes[..end], wide()).unwrap_err();
        assert_eq!(error.code(), ErrorCode::CorruptPartition);
    }
}

#[test]
fn header_and_payload_mutations_fail_closed() {
    let bytes = one_record();
    for offset in [0, 8, 10, 12, 44, 52, 60, 91, 92, bytes.len() - 1] {
        let mut changed = bytes.clone();
        changed[offset] ^= 0x5a;
        let error = read_all(&changed, wide()).unwrap_err();
        assert_eq!(error.code(), ErrorCode::CorruptPartition);
    }
}

#[test]
fn record_limit_is_checked_before_record_allocation() {
    let bytes = one_record();
    let narrow = PartitionLimits { max_record_bytes: 1, max_columns: 4 };
    let error = read_all(&bytes, narrow).unwrap_err();
    assert_eq!(error.code(), ErrorCode::CorruptPartition);
}

#[test]
fn records_are_read_back() {
    let bytes = one_record();
    let mut reader = PartitionReader::open(&bytes, &[7; 32], wide()).unwrap();
    let (key, found) = reader.next().unwrap().unwrap();
    assert_eq!(key, b"key".to_vec());
    assert_eq!(found.display_key, "key");
    assert_eq!(found.values, vec![Some(b"value".to_vec())]);
    assert_eq!(found.hash, [9; 32]);
    assert!(reader.next().unwrap().is_none());
    assert!(PartitionReader::open(&bytes, &[8; 32], wide()).is_err());
}

fn schema() -> Schema {
    let field = |name: &str, data_type: DataType, type_text: &str| Field {
        name: name.to_string(),
        data_type,
        type_text: type_text.to_string(),
        nullable: true,
        metadata: Vec::new(),
    };
    Schema {
        fields: vec![
            field("id", DataType::Int64, "Int64"),
            field("v", DataType::Utf8, "Utf8"),
            field("w", DataType::Int64, "Int64"),
        ],
        metadata: Vec::new(),
    }
}

fn batch(rows: &[(i64, &str, i64)]) -> Batch {
    Batch {
        columns: vec![
            rows.iter().map(|r| Cell::Int64(r.0)).collect(),
            rows.iter().map(|r| Cell::Utf8(r.1.to_string())).collect(),
            rows.iter().map(|r| Cell::Int64(r.2)).collect(),
        ],
        rows: rows.len(),
    }
}

fn shown(rows: &[(i64, &str, i64)], keys: &[String]) -> Vec<Vec<String>> {
    keys.iter()
        .map(|key| match key.as_str() {
            "id" => rows.iter().map(|r| r.0.to_string()).collect(),
            "v" => rows.iter().map(|r| r.1.to_string()).collect(),
            _ => rows.iter().map(|r| r.2.to_string()).collect(),
        })
        .collect()
}

fn partitioned(
    rows: &[(i64, &str, i64)],
    keys: &Vec<String>,
    options: &DiffOptions,
    account: &mut ResourceAccount,
    temp: &mut TempLedger,
) -> Result<(PartitionedRows, Vec<Vec<u8>>), ProofFrameError> {
    let mut partitioner = Partitioner::begin(&schema(), keys, account, temp)?;
    let chunks = partitioner.update(
        &schema(),
        &batch(rows),
        &shown(rows, keys),
        options.cancellation.is_cancelled(),
        account,
        temp,
    )?;
    let done = partitioner.finish(account);
    let mut files: Vec<Vec<u8>> = done.headers.clone();
    for chunk in chunks {
        files[chunk.partition].extend(chunk.bytes);
    }
    Ok((done, files))
}

fn compare(
    before: &[(i64, &str, i64)],
    after: &[(i64, &str, i64)],
    keys: &[&str],
    options: &DiffOptions,
) -> Result<(DiffReport, Vec<String>), ProofFrameError> {
    let keys: Vec<String> = keys.iter().map(|k| k.to_string()).collect();
    let (mut account, mut temp) = options.begin(&keys, options.cancellation.is_cancelled())?;
    let (old, old_files) = partitioned(before, &keys, options, &mut account, &mut temp)?;
    let (new, new_files) = partitioned(after, &keys, options, &mut account, &mut temp)?;
    check_comparable(&old, &new)?;
    let names = column_names(&old.signature);
    let limits = reader_limits(names.len())?;
    let mut acc = Accumulator::new(
        keys,
        old.rows,
        new.rows,
        options.sample_limit(),
        options.output.as_ref(),
        &mut account,
    )?;
    let mut lines = Vec::new();
    for i in 0..old_files.len() {
        process_partition(
            &old_files[i],
            &new_files[i],
            &old.schema_digest,
            limits,
            &names,
            &mut acc,
            &mut account,
            &mut temp,
            options.cancellation.is_cancelled(),
        )?;
        for event in acc.take_events() {
            lines.push(event.to_json());
        }
    }
    let metrics = metrics_of(&acc, &account, &temp);
    Ok((acc.finish(metrics), lines))
}

const OLD: [(i64, &str, i64); 4] = [(1, "a", 10), (2, "b", 20), (3, "c", 30), (4, "d", 40)];
const NEW: [(i64, &str, i64); 4] = [(2, "b", 20), (3, "x", 31), (4, "d", 41), (5, "e", 50)];

#[test]
fn differences_are_added_removed_and_changed() {
    let (report, lines) = compare(&OLD, &NEW, &["id"], &DiffOptions::default()).unwrap();
    assert_eq!(report.before_rows, 4);
    assert_eq!(report.after_rows, 4);
    assert_eq!(report.added_keys, vec!["5".to_string()]);
    assert_eq!(report.removed_keys, vec!["1".to_string()]);
    assert_eq!(report.changed_count, 2);
    assert_eq!(report.changed[0].key, "3");
    assert_eq!(report.changed[0].columns, vec!["v".to_string(), "w".to_string()]);
    assert_eq!(report.changed[1].key, "4");
    assert_eq!(report.changed[1].columns, vec!["w".to_string()]);
    assert!(!report.truncated);
    assert!(lines.is_empty());
}

#[test]
fn a_table_does_not_differ_from_itself() {
    let mut turned = OLD;
    turned.reverse();
    let (report, _) = compare(&OLD, &turned, &["id"], &DiffOptions::default()).unwrap();
    assert_eq!((report.added_count, report.removed_count, report.changed_count), (0, 0, 0));
}

#[test]
fn swapping_the_sides_swaps_the_report() {
    let (there, _) = compare(&OLD, &NEW, &["id"], &DiffOptions::default()).unwrap();
    let (back, _) = compare(&NEW, &OLD, &["id"], &DiffOptions::default()).unwrap();
    assert_eq!(there.added_keys, back.removed_keys);
    assert_eq!(there.removed_keys, back.added_keys);
    assert_eq!(there.changed_count, back.changed_count);
}

#[test]
fn keys_are_unique_and_named() {
    let twice = [(1, "a", 1), (1, "b", 2)];
    let error = compare(&twice, &OLD, &["id"], &DiffOptions::default()).err().unwrap();
    assert_eq!(error.code(), ErrorCode::DuplicateKey);
    let error = compare(&OLD, &twice, &["id"], &DiffOptions::default()).err().unwrap();
    assert_eq!(error.code(), ErrorCode::DuplicateKey);
    let error = compare(&OLD, &NEW, &[], &DiffOptions::default()).err().unwrap();
    assert_eq!(error.code(), ErrorCode::NoKeyColumns);
    let error = compare(&OLD, &NEW, &["nope"], &DiffOptions::default()).err().unwrap();
    assert_eq!(error.code(), ErrorCode::MissingColumn);
}

#[test]
fn samples_are_bounded_and_counts_are_not() {
    let options = DiffOptions { max_samples: 1, ..DiffOptions::default() };
    let (report, _) = compare(&OLD, &NEW, &["id"], &options).unwrap();
    assert_eq!(report.changed_count, 2);
    assert_eq!(report.changed.len(), 1);
    assert!(report.truncated);
}

#[test]
fn every_difference_is_written_out() {
    let options = DiffOptions {
        max_samples: 0,
        output: Some(DiffOutput::JsonLines("out".to_string())),
        ..DiffOptions::default()
    };
    let (report, mut lines) = compare(&OLD, &NEW, &["id"], &options).unwrap();
    lines.sort();
    assert_eq!(
        lines,
        vec![
            "{\"kind\":\"added\",\"key\":\"5\"}".to_string(),
            "{\"kind\":\"changed\",\"key\":\"3\",\"columns\":[\"v\",\"w\"]}".to_string(),
            "{\"kind\":\"changed\",\"key\":\"4\",\"columns\":[\"w\"]}".to_string(),
            "{\"kind\":\"removed\",\"key\":\"1\"}".to_string(),
        ]
    );
    assert_eq!(report.metrics.output_records, 4);
}

#[test]
fn output_and_cancellation_are_limited() {
    let resources = ResourceLimits { max_output_records: 3, ..ResourceLimits::default() };
    let options = DiffOptions {
        resources,
        output: Some(DiffOutput::JsonLines("out".to_string())),
        ..DiffOptions::default()
    };
    let error = compare(&OLD, &NEW, &["id"], &options).err().unwrap();
    assert_eq!(error.code(), ErrorCode::ResourceLimit);
    let mut stopped = DiffOptions::default();
    stopped.cancellation.cancel();
    let error = compare(&OLD, &NEW, &["id"], &stopped).err().unwrap();
    assert_eq!(error.code(), ErrorCode::Cancelled);
}

#[test]
fn equal_keys_meet_in_one_partition() {
    assert_eq!(row_partition(b"key"), row_partition(b"key"));
    for key in [&b""[..], b"a", b"b", b"long key"] {
        assert!(row_partition(key) < 64);
    }
}

#[test]
fn untrusted_bytes_are_decoded_under_a_cap() {
    let bytes = one_record();
    assert!(fuzz_partition_bytes(&bytes).is_ok());
    assert_eq!(
        fuzz_partition_bytes(&bytes[..20]).unwrap_err().code(),
        ErrorCode::CorruptPartition
    );
    let long = vec![0_u8; 1024 * 1024 + 1];
    assert_eq!(fuzz_partition_bytes(&long).unwrap_err().code(), ErrorCode::ResourceLimit);
}

#[test]
fn counts_are_those_of_the_whole_datasets() {
    let before: Vec<(i64, &str, i64)> = (0..300).map(|i| (i, "v", i)).collect();
    let after: Vec<(i64, &str, i64)> =
        (100..450).map(|i| (i, "v", if i % 10 == 0 { -i } else { i })).collect();
    let (report, _) = compare(&before, &after, &["id"], &DiffOptions::default()).unwrap();
    assert_eq!(report.added_count, 150);
    assert_eq!(report.removed_count, 100);
    assert_eq!(report.changed_count, 20);
    let (turned, _) = compare(&after, &before, &["id"], &DiffOptions::default()).unwrap();
    assert_eq!((turned.added_count, turned.removed_count), (100, 150));
    assert_eq!(turned.changed_count, 20);
}

#[test]
fn repeated_keys_are_named() {
    let twice = [(7, "a", 1), (8, "b", 2), (7, "c", 3)];
    for (before, after) in [(&twice[..], &OLD[..]), (&OLD[..], &twice[..])] {
        let error = compare(before, after, &["id"], &DiffOptions::default()).err().unwrap();
        assert!(matches!(&error, ProofFrameError::DuplicateKey(key) if key == "7"));
    }
    let error = compare(&twice, &OLD, &["id", "v"], &DiffOptions::default());
    assert!(error.is_ok());
}

#[test]
fn damaged_partitions_are_answered_as_corruption() {
    let options = DiffOptions::default();
    let keys = vec!["id".to_string()];
    for (side, at) in [(0, 0), (0, 50), (0, 95), (1, 0), (1, 50), (1, 95)] {
        let (mut account, mut temp) = options.begin(&keys, false).unwrap();
        let (old, mut files) = partitioned(&OLD, &keys, &options, &mut account, &mut temp).unwrap();
        let filled = files.iter().position(|f| f.len() > 92).unwrap();
        let whole = files[filled].clone();
        files[filled][at] ^= 1;
        let damaged = files[filled].clone();
        let names = column_names(&old.signature);
        let limits = reader_limits(names.len()).unwrap();
        let mut acc = Accumulator::new(keys.clone(), 4, 4, 10, None, &mut account).unwrap();
        let (before, after) = if side == 0 { (&damaged, &whole) } else { (&whole, &damaged) };
        let error = process_partition(
            before,
            after,
            &old.schema_digest,
            limits,
            &names,
            &mut acc,
            &mut account,
            &mut temp,
            false,
        )
        .err()
        .unwrap();
        assert_eq!(error.code(), ErrorCode::CorruptPartition);
        let same = process_partition(
            &whole,
            &whole,
            &old.schema_digest,
            limits,
            &names,
            &mut acc,
            &mut account,
            &mut temp,
            false,
        );
        assert!(same.is_ok());
    }
}

#[test]
fn refused_records_leave_their_writer() {
    let limits = ResourceLimits { max_temp_bytes: 10, ..ResourceLimits::default() };
    let mut account = ResourceAccount::root(limits);
    let mut temp = TempLedger::new(0);
    let mut writer = PartitionWriter::create([7; 32]);
    let error = writer.write_record(b"key", &entry(), &mut account, &mut temp).err().unwrap();
    assert_eq!(error.code(), ErrorCode::ResourceLimit);
    assert_eq!(writer.finish(), PartitionWriter::create([7; 32]).finish());
}

#[test]
fn rows_that_are_not_taken_are_answered() {
    let keys = vec!["id".to_string()];
    let resources = ResourceLimits { max_temp_bytes: 64 * 92 + 10, ..ResourceLimits::default() };
    let options = DiffOptions { resources, ..DiffOptions::default() };
    let (mut account, mut temp) = options.begin(&keys, false).unwrap();
    let mut partitioner = Partitioner::begin(&schema(), &keys, &mut account, &mut temp).unwrap();
    let refused = partitioner.update(
        &schema(),
        &batch(&OLD),
        &shown(&OLD, &keys),
        false,
        &mut account,
        &mut temp,
    );
    assert_eq!(refused.err().unwrap().code(), ErrorCode::ResourceLimit);

    let options = DiffOptions::default();
    let (mut account, mut temp) = options.begin(&keys, false).unwrap();
    let mut partitioner = Partitioner::begin(&schema(), &keys, &mut account, &mut temp).unwrap();
    let mut odd = batch(&OLD);
    odd.columns[2][1] = Cell::Other;
    let refused =
        partitioner.update(&schema(), &odd, &shown(&OLD, &keys), false, &mut account, &mut temp);
    assert_eq!(refused.err().unwrap().code(), ErrorCode::UnsupportedType);
}
