use proofframe::distinct::merge::count_records;
use proofframe::distinct::order::{sort_records, OwnedValue, Record, ValueKind, ValueRef};
use proofframe::distinct::run::{write_run, RunCursor};
use proofframe::distinct::state::ExactState;
use proofframe::execution::dataset_finish::finish_all;
use proofframe::leakage::{begin_leakage, compare_leakage, LeakageOptions, LeakageReport};
use proofframe::profile::columns::DistinctMode;
use proofframe::profile::legacy::Contract;
use proofframe::profile::scan::{validation_report, ProfileScan};
use proofframe::value::{Batch, Cell, DataType, Field, Schema};
use proofframe::{CancellationToken, ErrorCode, ProofFrameError, ResourceAccount, ResourceLimits};

fn schema() -> Schema {
    let field = |name: &str| Field {
        name: name.to_string(),
        data_type: DataType::Int64,
        type_text: "Int64".to_string(),
        nullable: true,
        metadata: Vec::new(),
    };
    Schema { fields: vec![field("k"), field("v")], metadata: Vec::new() }
}

fn batch(rows: &[(i64, i64)]) -> Batch {
    Batch {
        columns: vec![
            rows.iter().map(|r| Cell::Int64(r.0)).collect(),
            rows.iter().map(|r| Cell::Int64(r.1)).collect(),
        ],
        rows: rows.len(),
    }
}

fn leakage(
    train: &[(i64, i64)],
    test: &[(i64, i64)],
    keys: &[&str],
    options: &LeakageOptions,
) -> Result<LeakageReport, ProofFrameError> {
    let keys: Vec<String> = keys.iter().map(|k| k.to_string()).collect();
    let (mut account, mut left, mut right) = begin_leakage(&schema(), &schema(), &keys, options)?;
    let mut left_runs = left.update(&schema(), &batch(train), &mut account, options.cancellation.is_cancelled())?;
    let mut right_runs = right.update(&schema(), &batch(test), &mut account, options.cancellation.is_cancelled())?;
    left_runs.extend(left.exact.spill(&mut account)?);
    right_runs.extend(right.exact.spill(&mut account)?);
    let left_stored: Vec<&[u8]> = left_runs.iter().map(|r| r.as_slice()).collect();
    let right_stored: Vec<&[u8]> = right_runs.iter().map(|r| r.as_slice()).collect();
    compare_leakage(&left, &left_stored, &right, &right_stored, &keys, options, false, &mut account)
}

#[test]
fn shared_rows_are_counted_once() {
    let options = LeakageOptions::default();
    let report =
        leakage(&[(1, 1), (2, 2), (2, 2)], &[(2, 2), (3, 3), (1, 9)], &[], &options).unwrap();
    assert!(report.detected);
    assert_eq!(report.mode, "full_row");
    assert_eq!(report.overlap_count, 1);
    assert_eq!((report.train_rows, report.test_rows), (3, 3));
    assert_eq!((report.train_distinct, report.test_distinct), (2, 3));
    assert_eq!(report.sample_fingerprints.len(), 1);
    let by_key =
        leakage(&[(1, 1), (2, 2), (2, 2)], &[(2, 2), (3, 3), (1, 9)], &["k"], &options).unwrap();
    assert_eq!(by_key.overlap_count, 2);
}

#[test]
fn overlap_does_not_depend_on_the_side() {
    let options = LeakageOptions::default();
    let a = [(1, 1), (2, 2), (5, 5)];
    let b = [(2, 2), (5, 5), (9, 9), (9, 9)];
    let there = leakage(&a, &b, &[], &options).unwrap();
    let back = leakage(&b, &a, &[], &options).unwrap();
    assert_eq!(there.overlap_count, back.overlap_count);
    assert_eq!(there.sample_fingerprints, back.sample_fingerprints);
    let same = leakage(&b, &b, &[], &options).unwrap();
    assert_eq!(same.overlap_count as u64, same.train_distinct);
    let apart = leakage(&[(1, 1)], &[(2, 2)], &[], &options).unwrap();
    assert!(!apart.detected);
}

#[test]
fn leakage_samples_and_keys_are_checked() {
    let options = LeakageOptions { max_samples: 1, ..LeakageOptions::default() };
    let a = [(1, 1), (2, 2)];
    let report = leakage(&a, &a, &[], &options).unwrap();
    assert_eq!(report.overlap_count, 2);
    assert_eq!(report.sample_fingerprints.len(), 1);
    assert!(report.truncated);
    let error = leakage(&a, &a, &["nope"], &options).err().unwrap();
    assert_eq!(error.code(), ErrorCode::MissingColumn);
    let mut stopped = LeakageOptions::default();
    stopped.cancellation.cancel();
    assert_eq!(leakage(&a, &a, &[], &stopped).err().unwrap().code(), ErrorCode::Cancelled);
}

fn records(values: &[(i64, u64)]) -> Vec<Record> {
    values.iter().map(|v| Record { value: OwnedValue::I64(v.0), row: v.1 }).collect()
}

#[test]
fn runs_are_read_back_and_checked() {
    let sorted = sort_records(records(&[(3, 0), (-1, 1), (3, 2), (0, 3)]));
    let rows: Vec<u64> = sorted.iter().map(|r| r.row).collect();
    assert_eq!(rows, vec![1, 3, 0, 2]);
    let counts = count_records(&sorted, 10);
    assert_eq!((counts.distinct, counts.duplicates), (3, 1));
    assert_eq!((counts.samples[0].first_row, counts.samples[0].duplicate_row), (0, 2));
    let (meta, bytes) = write_run(ValueKind::I64, &sorted);
    assert_eq!(meta.total_bytes(), bytes.len() as u64);
    let mut cursor = RunCursor::open(&meta, &bytes).unwrap();
    let mut count = 0;
    while let Some(record) = cursor.next() {
        assert_eq!(record.row, rows[count]);
        count += 1;
    }
    assert_eq!(count, 4);
    for at in (0..bytes.len()).filter(|at| *at != 11) {
        let mut changed = bytes.clone();
        changed[at] ^= 0x5a;
        assert!(RunCursor::open(&meta, &changed).is_err());
    }
    assert!(RunCursor::open(&meta, &bytes[..bytes.len() - 1]).is_err());
}

fn count_spilled(limits: ResourceLimits, values: &[i64]) -> (u64, u64, u64) {
    let mut account = ResourceAccount::root(limits);
    let node = account.child(0, u64::MAX, u64::MAX);
    let mut exact = ExactState::new(ValueKind::I64, &mut account, node, true, None).unwrap();
    let mut stored: Vec<Vec<u8>> = Vec::new();
    let never = CancellationToken::new();
    for (row, value) in values.iter().enumerate() {
        if let Some(run) =
            exact.insert(&mut account, ValueRef::I64(*value), row as u64).unwrap()
        {
            stored.push(run);
        }
        if exact.compaction_due() {
            let first: Vec<&[u8]> = stored.iter().take(32).map(|r| r.as_slice()).collect();
            let merged = exact.compact(&mut account, &first, never.is_cancelled()).unwrap();
            stored.drain(..32);
            stored.insert(0, merged);
        }
    }
    let runs: Vec<&[u8]> = stored.iter().map(|r| r.as_slice()).collect();
    let summary = exact.finish(&mut account, &runs, never.is_cancelled()).unwrap();
    (summary.distinct_count, summary.duplicate_count, summary.metrics.runs)
}

#[test]
fn spilled_values_count_as_those_in_memory_do() {
    let values: Vec<i64> = (0..3000).map(|i| (i * 7919) % 1000).collect();
    let (distinct, duplicates, _) = count_spilled(ResourceLimits::default(), &values);
    assert_eq!((distinct, duplicates), (1000, 2000));
    let tight = ResourceLimits { max_memory_bytes: 64 * 1024, ..ResourceLimits::default() };
    let (distinct, duplicates, _) = count_spilled(tight, &values);
    assert_eq!((distinct, duplicates), (1000, 2000));
}

#[test]
fn many_runs_are_merged_in_two_steps() {
    let mut account = ResourceAccount::root(ResourceLimits::default());
    let node = account.child(0, u64::MAX, u64::MAX);
    let mut exact = ExactState::new(ValueKind::I64, &mut account, node, true, None).unwrap();
    let mut stored: Vec<Vec<u8>> = Vec::new();
    for row in 0..66u64 {
        let value = ValueRef::I64((row % 40) as i64);
        assert!(exact.insert(&mut account, value, row).unwrap().is_none());
        if row % 2 == 1 {
            stored.push(exact.spill(&mut account).unwrap().unwrap());
        }
    }
    assert!(exact.compaction_due());
    let runs: Vec<&[u8]> = stored.iter().map(|r| r.as_slice()).collect();
    assert_eq!(runs.len(), 33);
    let summary = exact.finish(&mut account, &runs, false).unwrap();
    assert_eq!((summary.distinct_count, summary.duplicate_count), (40, 26));
    assert_eq!(summary.metrics.max_merge_fan_in, 32);
    assert_eq!((summary.metrics.runs, summary.metrics.compactions), (2, 1));
}

#[test]
fn a_refused_value_leaves_the_others() {
    let tight = ResourceLimits { max_memory_bytes: 4096, ..ResourceLimits::default() };
    let mut account = ResourceAccount::root(tight);
    let node = account.child(0, u64::MAX, u64::MAX);
    let mut exact = ExactState::new(ValueKind::Bytes, &mut account, node, false, None).unwrap();
    let short = ValueRef::Bytes(b"ab");
    assert!(exact.insert(&mut account, short, 0).unwrap().is_none());
    let used = account.memory_used(node);
    let long = vec![7u8; 1 << 16];
    let refused = exact.insert(&mut account, ValueRef::Bytes(&long), 1).err().unwrap();
    assert_eq!(refused.code(), ErrorCode::ResourceLimit);
    assert_eq!(account.memory_used(node), used);
    let summary = exact.finish(&mut account, &Vec::new(), false).unwrap();
    assert_eq!((summary.distinct_count, summary.duplicate_count), (1, 0));
}

#[test]
fn profiles_count_values_and_nulls() {
    let table = schema();
    let contract = Contract::empty();
    let (mut account, mut scan) = ProfileScan::begin(
        &table,
        &contract,
        DistinctMode::Exact,
        ResourceLimits::default(),
        None,
    )
    .unwrap();
    let mut cells = batch(&[(1, 5), (2, 5), (1, 7)]);
    cells.columns[1][2] = Cell::Null;
    let shown = vec![
        vec!["1".to_string(), "2".to_string(), "1".to_string()],
        vec!["5".to_string(), "5".to_string(), String::new()],
    ];
    let numbers = vec![
        vec![Some(1.0_f64.to_bits()), Some(2.0_f64.to_bits()), Some(1.0_f64.to_bits())],
        vec![Some(5.0_f64.to_bits()), Some(5.0_f64.to_bits()), None],
    ];
    scan.update(&table, &contract, &schema(), &cells, &shown, &numbers, &mut account).unwrap();
    let never = CancellationToken::new();
    let stored = vec![Vec::new(), Vec::new()];
    let (profile, outcome) =
        scan.finish(&table, &contract, &mut account, &stored, never.is_cancelled()).unwrap();
    assert_eq!(profile.rows, 3);
    assert_eq!(profile.columns[0].distinct_count, Some(2));
    assert_eq!(profile.columns[0].min, Some(1.0_f64.to_bits()));
    assert_eq!(profile.columns[0].max, Some(2.0_f64.to_bits()));
    assert_eq!(profile.columns[1].null_count, 1);
    assert_eq!(profile.columns[1].non_null_count, 2);
    assert_eq!(profile.columns[1].distinct_count, Some(1));
    let report = validation_report(outcome, profile);
    assert!(report.valid);
    assert!(DistinctMode::from_name("exact").is_ok());
    assert!(DistinctMode::from_name("some").is_err());
}

#[test]
fn stopped_and_damaged_comparisons_are_answered() {
    let options = LeakageOptions::default();
    let keys = vec!["k".to_string()];
    let rows = [(1, 1), (2, 2), (3, 3)];
    let compared = |cancelled: bool, damage: Option<usize>| {
        let (mut account, mut left, mut right) =
            begin_leakage(&schema(), &schema(), &keys, &options).unwrap();
        left.update(&schema(), &batch(&rows), &mut account, false).unwrap();
        right.update(&schema(), &batch(&rows), &mut account, false).unwrap();
        let mut run = left.exact.spill(&mut account).unwrap().unwrap();
        let other = right.exact.spill(&mut account).unwrap().unwrap();
        if let Some(at) = damage {
            run[at] ^= 1;
        }
        let left_stored = vec![run.as_slice()];
        let right_stored = vec![other.as_slice()];
        compare_leakage(
            &left,
            &left_stored,
            &right,
            &right_stored,
            &keys,
            &options,
            cancelled,
            &mut account,
        )
    };
    assert_eq!(compared(false, None).unwrap().overlap_count, 3);
    assert_eq!(compared(true, None).err().unwrap().code(), ErrorCode::Cancelled);
    for at in [0, 30, 70] {
        let error = compared(false, Some(at)).err().unwrap();
        assert_eq!(error.code(), ErrorCode::CorruptPartition);
    }
}

#[test]
fn damaged_runs_are_answered_as_corruption() {
    let mut account = ResourceAccount::root(ResourceLimits::default());
    let node = account.child(0, u64::MAX, u64::MAX);
    let mut exact = ExactState::new(ValueKind::I64, &mut account, node, true, None).unwrap();
    let mut stored: Vec<Vec<u8>> = Vec::new();
    for row in 0..34u64 {
        exact.insert(&mut account, ValueRef::I64(row as i64), row).unwrap();
        stored.push(exact.spill(&mut account).unwrap().unwrap());
    }
    stored[5][3] ^= 1;
    let first: Vec<&[u8]> = stored.iter().take(32).map(|r| r.as_slice()).collect();
    let error = exact.compact(&mut account, &first, false).err().unwrap();
    assert_eq!(error.code(), ErrorCode::CorruptPartition);
    stored[5][3] ^= 1;
    let first: Vec<&[u8]> = stored.iter().take(32).map(|r| r.as_slice()).collect();
    let merged = exact.compact(&mut account, &first, false).unwrap();
    let last = stored[33].clone();
    stored[32][60] ^= 1;
    let runs = vec![merged.as_slice(), stored[32].as_slice(), last.as_slice()];
    let error = exact.finish(&mut account, &runs, false).err().unwrap();
    assert_eq!(error.code(), ErrorCode::CorruptPartition);
}

#[test]
fn samples_without_room_are_refused() {
    let begun = |max_samples: usize, max_memory_bytes: u64| {
        let options = LeakageOptions {
            resources: ResourceLimits { max_samples, max_memory_bytes, ..ResourceLimits::default() },
            ..LeakageOptions::default()
        };
        begin_leakage(&schema(), &schema(), &Vec::new(), &options).err()
    };
    assert_eq!(begun(usize::MAX, 1000).unwrap().code(), ErrorCode::CorruptPartition);
    let error = begun(100, 1000).unwrap();
    assert!(matches!(
        error,
        ProofFrameError::ResourceLimit { resource: "memory", requested: 1600, .. }
    ));
    assert!(begun(10, 1000).is_none());
}

#[test]
fn one_damaged_run_of_several_states_is_answered_as_corruption() {
    let run = |damage: Option<usize>, cancelled: bool| {
        let mut account = ResourceAccount::root(ResourceLimits::default());
        let mut states = Vec::new();
        let mut written = Vec::new();
        for offset in 0..3i64 {
            let node = account.child(0, u64::MAX, u64::MAX);
            let mut exact =
                ExactState::new(ValueKind::I64, &mut account, node, true, None).unwrap();
            exact.insert(&mut account, ValueRef::I64(offset), 0).unwrap();
            written.push(exact.spill(&mut account).unwrap().unwrap());
            exact.insert(&mut account, ValueRef::I64(7), 1).unwrap();
            states.push(exact);
        }
        if let Some(at) = damage {
            written[at][20] ^= 1;
        }
        let stored: Vec<Vec<&[u8]>> = written.iter().map(|w| vec![w.as_slice()]).collect();
        finish_all(states, &mut account, &stored, cancelled)
    };
    let counted: Vec<u64> =
        run(None, false).unwrap().iter().map(|s| s.distinct_count).collect();
    assert_eq!(counted, vec![2, 2, 2]);
    for at in 0..3 {
        assert_eq!(run(Some(at), false).err().unwrap().code(), ErrorCode::CorruptPartition);
    }
    assert_eq!(run(None, true).err().unwrap().code(), ErrorCode::Cancelled);
}
