use proofframe::contract::ast::{
    ContractAstV2, ContractStatus, ContractVersion, DatasetRulesAst, ReferenceAst,
    ReferenceNullPolicyAst, RowCountDeltaAst,
};
use proofframe::contract::compile::CompiledContract;
use proofframe::execution::reference_state::{
    check_row_count_delta, join_references, report_references, DeltaCounts, ReferenceScan,
    ReferenceState,
};
use proofframe::execution::references::{ReferenceBindings, ReferenceScans, ReferenceSource};
use proofframe::execution::total::Measured;
use proofframe::execution::validation::ValidationState;
use proofframe::value::{Batch, Cell, DataType, Field, Schema};
use proofframe::{CancellationToken, ErrorCode, ResourceAccount, ResourceLimits};

fn schema(name: &str, data_type: DataType, type_text: &str) -> Schema {
    Schema {
        fields: vec![Field {
            name: name.to_string(),
            data_type,
            type_text: type_text.to_string(),
            nullable: true,
            metadata: Vec::new(),
        }],
        metadata: Vec::new(),
    }
}

fn local() -> Schema {
    schema("owner", DataType::Int64, "Int64")
}

fn remote() -> Schema {
    schema("id", DataType::Int64, "Int64")
}

fn batch(values: &[Option<i64>]) -> Batch {
    Batch {
        columns: vec![values
            .iter()
            .map(|v| match v {
                Some(v) => Cell::Int64(*v),
                None => Cell::Null,
            })
            .collect()],
        rows: values.len(),
    }
}

fn compiled(nulls: ReferenceNullPolicyAst) -> CompiledContract {
    let contract = ContractAstV2 {
        version: ContractVersion::V2,
        status: ContractStatus::Active,
        suggested_from: None,
        columns: Vec::new(),
        row_rules: Vec::new(),
        dataset_rules: DatasetRulesAst {
            row_count: None,
            composite_unique: Vec::new(),
            references: vec![ReferenceAst {
                name: "owned".to_string(),
                columns: vec!["owner".to_string()],
                reference: "owners".to_string(),
                reference_columns: vec!["id".to_string()],
                nulls,
            }],
            null_ratio: Vec::new(),
            distinct_count: Vec::new(),
            distinct_ratio: Vec::new(),
            monotonicity: Vec::new(),
            gap_detection: Vec::new(),
            mutually_exclusive: Vec::new(),
            sum: Vec::new(),
            mean: Vec::new(),
            std_dev: Vec::new(),
            conditional_unique: Vec::new(),
            row_count_delta: vec![RowCountDeltaAst {
                name: "steady".to_string(),
                reference: "yesterday".to_string(),
                min_ratio: Some((-0.5_f64).to_bits()),
                max_ratio: None,
            }],
        },
        max_findings: 10,
    };
    CompiledContract::compile_v2(&contract, &local()).unwrap()
}

#[test]
fn missing_keys_are_found_once() {
    let plan = compiled(ReferenceNullPolicyAst::Reject);
    let plans = plan.dataset_plan().references();
    let never = CancellationToken::new();
    let mut account = ResourceAccount::root(ResourceLimits::default());
    let mut bindings = ReferenceBindings::new();
    assert!(!bindings.insert("owners"));
    let mut scans = ReferenceScans::new();
    let source = scans.source(&plans[0], &mut bindings).unwrap();
    assert_eq!(source, ReferenceSource::Scan);
    assert!(bindings.finish().is_ok());
    let mut scan = ReferenceScan::new(&plans[0], &local(), &remote(), &mut account, 0).unwrap();
    let runs = scan
        .update(
            "owners",
            &remote(),
            &remote(),
            &batch(&[Some(1), Some(2), None, Some(2)]),
            &mut account,
            never.is_cancelled(),
        )
        .unwrap();
    assert!(runs.is_empty());
    let (sealed, last) = scan.seal(&mut account).unwrap();
    let mut state = ReferenceState::new(plans, &mut account, 0, None).unwrap();
    let mut validation = ValidationState::new(10);
    let rows = [Some(2), Some(3), None, Some(3), Some(4)];
    state
        .update(plans, &local(), &batch(&rows), 0, &mut account, &mut validation)
        .unwrap();
    let written = state.seal(&mut account).unwrap();
    let local_runs: Vec<Vec<&[u8]>> =
        written.iter().map(|w| w.iter().map(|b| b.as_slice()).collect()).collect();
    let scan_runs: Vec<Vec<&[u8]>> = vec![last.iter().map(|b| b.as_slice()).collect()];
    let sources = vec![0];
    let sealed = vec![sealed];
    let found = join_references(
        &state,
        &sources,
        &sealed,
        &local_runs,
        &scan_runs,
        10,
        never.is_cancelled(),
        &mut account,
    )
    .unwrap();
    let (outcomes, _) =
        report_references(&state, plans, &sources, &sealed, &found, &mut validation);
    assert_eq!(outcomes[0].reference_rows, 4);
    assert_eq!(outcomes[0].reference_distinct_keys, 2);
    assert_eq!(outcomes[0].checked_distinct_keys, 3);
    assert_eq!(outcomes[0].missing_distinct_keys, 2);
    assert!(outcomes[0].reference_fingerprint.starts_with("pf-fp-v2:"));
    let outcome = validation.finish();
    let rows: Vec<Option<u64>> = outcome.findings.iter().map(|f| f.row).collect();
    assert_eq!(rows, vec![Some(2), Some(1), Some(4)]);
}

#[test]
fn unbound_and_unused_datasets_are_refused() {
    let plan = compiled(ReferenceNullPolicyAst::Skip);
    let plans = plan.dataset_plan().references();
    let mut nothing = ReferenceBindings::new();
    let error = ReferenceScans::new().source(&plans[0], &mut nothing).unwrap_err();
    assert_eq!(error.code(), ErrorCode::ReferenceUnbound);
    let mut unused = ReferenceBindings::new();
    unused.insert("others");
    assert_eq!(unused.finish().unwrap_err().code(), ErrorCode::ReferenceUnbound);
    let mut account = ResourceAccount::root(ResourceLimits::default());
    let text = schema("id", DataType::Utf8, "Utf8");
    assert!(ReferenceScan::new(&plans[0], &local(), &text, &mut account, 0).is_err());
    let other = schema("key", DataType::Int64, "Int64");
    assert!(ReferenceScan::new(&plans[0], &local(), &other, &mut account, 0).is_err());
}

#[test]
fn row_counts_are_held_against_another_dataset() {
    let plan = compiled(ReferenceNullPolicyAst::Skip);
    let plans = plan.dataset_plan().row_count_delta();
    let mut bindings = ReferenceBindings::new();
    bindings.insert("yesterday");
    let mut counted = DeltaCounts::new();
    assert!(counted.wants(&plans[0], &mut bindings).unwrap());
    counted.insert("yesterday", 10);
    assert!(!counted.wants(&plans[0], &mut bindings).unwrap());
    let change = |value: f64| {
        vec![Measured {
            bits: value.to_bits(),
            shown: value.to_string(),
            min_shown: "-0.5".to_string(),
            max_shown: String::new(),
        }]
    };
    let mut steady = ValidationState::new(10);
    check_row_count_delta(plans, 5, &counted, &change(-0.5), &mut steady);
    assert_eq!(steady.finish().violation_count, 0);
    let mut fallen = ValidationState::new(10);
    check_row_count_delta(plans, 4, &counted, &change(-0.6), &mut fallen);
    let outcome = fallen.finish();
    assert_eq!(outcome.violation_count, 1);
    assert_eq!(outcome.findings[0].rule, "row_count_delta");
    assert!(outcome.findings[0].message.contains("4 rows against 10"));
}

#[test]
fn damaged_keys_are_answered_as_corruption() {
    let plan = compiled(ReferenceNullPolicyAst::Skip);
    let plans = plan.dataset_plan().references();
    let joined = |damaged: bool, cancelled: bool| {
        let mut account = ResourceAccount::root(ResourceLimits::default());
        let mut scan =
            ReferenceScan::new(&plans[0], &local(), &remote(), &mut account, 0).unwrap();
        let keys = batch(&[Some(1), Some(2)]);
        scan.update("owners", &remote(), &remote(), &keys, &mut account, false).unwrap();
        let (sealed, last) = scan.seal(&mut account).unwrap();
        let mut last = last.unwrap();
        if damaged {
            last[10] ^= 1;
        }
        let mut state = ReferenceState::new(plans, &mut account, 0, None).unwrap();
        let mut validation = ValidationState::new(10);
        state
            .update(plans, &local(), &batch(&[Some(9)]), 0, &mut account, &mut validation)
            .unwrap();
        let written = state.seal(&mut account).unwrap();
        let local_runs: Vec<Vec<&[u8]>> =
            written.iter().map(|w| w.iter().map(|b| b.as_slice()).collect()).collect();
        let scan_runs: Vec<Vec<&[u8]>> = vec![vec![last.as_slice()]];
        join_references(
            &state,
            &vec![0],
            &vec![sealed],
            &local_runs,
            &scan_runs,
            10,
            cancelled,
            &mut account,
        )
    };
    assert_eq!(joined(false, false).unwrap()[0].missing, 1);
    assert_eq!(joined(true, false).err().unwrap().code(), ErrorCode::CorruptPartition);
    assert_eq!(joined(true, true).err().unwrap().code(), ErrorCode::Cancelled);
}
