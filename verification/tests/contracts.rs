use proofframe::contract::ast::{
    append_path, column_path, default_max_findings, validate_known_fields, BoundAst,
    ColumnOperandAst, CompareAst, CompareOpAst, CompositeNullPolicyAst, CompositeUniqueAst,
    ConditionalUniqueAst, ContractAstV2, ContractStatus, ContractVersion, CountRangeAst,
    DatasetRulesAst, ExclusiveModeAst, GapDetectionAst, LiteralOperandAst, MonotonicDirectionAst,
    MonotonicNullPolicyAst, MonotonicityAst, MutuallyExclusiveAst, NullPolicyAst, OperandAst,
    PrimitiveTypeAst, RatioRangeAst, ReferenceAst, ReferenceNullPolicyAst, RowRuleAst, RuleAst,
    RuleAstV2, Spelling, SumAst, TypeAst,
};
use proofframe::contract::bounds::{iso_days, parse_bound, parse_decimal, TypedBound};
use proofframe::contract::compile::CompiledContract;
use proofframe::contract::dataset::{DatasetPlan, StatisticKind};
use proofframe::contract::document::{declared_version, ContractDocument};
use proofframe::contract::json::{Json, JsonNumber};
use proofframe::contract::v2::validate_semantics;
use proofframe::execution::balance::{
    balance_verdict, counted_key, dominant_verdict, BalanceEqualPlan, BalanceTotals, DominantShare,
    DominantValuePlan,
};
use proofframe::execution::dataset_finish::{DatasetStored, Measurements};
use proofframe::execution::executor::{Execution, ExecutionOptions, SpillPolicy};
use proofframe::execution::partition::{
    merge_reports, requires_global_state, route_partitions, worker_count, PartitionRoute,
};
use proofframe::execution::report::{
    build_report, combine, finish_unique_states, report_unique, FastValidationReport,
};
use proofframe::execution::total::{Measured, Total};
use proofframe::numbers::{compare_fraction_to_bound, Order};
use proofframe::profile::columns::DistinctMode;
use proofframe::profile::legacy::{legacy_contract_ast, ColumnContract, Contract, FloatBound};
use proofframe::profile::scan::ProfileScan;
use proofframe::value::{Batch, Cell, DataType, Field, Schema, TimeUnit};
use proofframe::{ErrorCode, ResourceAccount, ResourceLimits};

fn field(name: &str, data_type: DataType, type_text: &str, nullable: bool) -> Field {
    Field {
        name: name.to_string(),
        data_type,
        type_text: type_text.to_string(),
        nullable,
        metadata: Vec::new(),
    }
}

fn schema(fields: Vec<Field>) -> Schema {
    Schema { fields, metadata: Vec::new() }
}

fn text(value: &str) -> Json {
    Json::Text(value.to_string())
}

fn number(value: i64) -> Json {
    Json::Number(JsonNumber {
        text: value.to_string(),
        as_i64: Some(value),
        as_u64: u64::try_from(value).ok(),
        as_float64: Some((value as f64).to_bits()),
        as_float32: (value as f32).to_bits(),
    })
}

fn object(members: Vec<(&str, Json)>) -> Json {
    Json::Object(members.into_iter().map(|m| (m.0.to_string(), m.1)).collect())
}

fn spelling(value: &str) -> Spelling {
    Spelling {
        text: value.to_string(),
        float64: value.parse::<f64>().ok().map(|v| v.to_bits()),
        float32: value.parse::<f32>().ok().map(|v| v.to_bits()),
    }
}

fn bound(value: &str) -> BoundAst {
    BoundAst::Number(spelling(value))
}

fn legacy_bound(value: f64) -> FloatBound {
    FloatBound {
        bits: value.to_bits(),
        shown: value.to_string(),
        spelling: spelling(&value.to_string()),
    }
}

fn no_rules() -> RuleAst {
    RuleAst {
        required: false,
        not_null: false,
        unique: false,
        min: None,
        max: None,
        nan: None,
        pattern: None,
        allowed: None,
    }
}

fn v2_rule(rules: RuleAst) -> RuleAstV2 {
    RuleAstV2 { rules, expected_type: None, min_length: None, max_length: None }
}

fn no_dataset_rules() -> DatasetRulesAst {
    DatasetRulesAst {
        row_count: None,
        composite_unique: Vec::new(),
        references: Vec::new(),
        null_ratio: Vec::new(),
        distinct_count: Vec::new(),
        distinct_ratio: Vec::new(),
        monotonicity: Vec::new(),
        gap_detection: Vec::new(),
        mutually_exclusive: Vec::new(),
        sum: Vec::new(),
        mean: Vec::new(),
        std_dev: Vec::new(),
        conditional_unique: Vec::new(),
        row_count_delta: Vec::new(),
    }
}

fn contract(
    columns: Vec<(&str, RuleAst)>,
    row_rules: Vec<RowRuleAst>,
    dataset_rules: DatasetRulesAst,
) -> ContractAstV2 {
    ContractAstV2 {
        version: ContractVersion::V2,
        status: ContractStatus::Active,
        suggested_from: None,
        columns: columns.into_iter().map(|c| (c.0.to_string(), v2_rule(c.1))).collect(),
        row_rules,
        dataset_rules,
        max_findings: default_max_findings(),
    }
}

fn no_measurements() -> Measurements {
    Measurements {
        statistics: Vec::new(),
        totals: Vec::new(),
        steps: Vec::new(),
        null_ratios: Vec::new(),
        distinct_ratios: Vec::new(),
    }
}

fn run_measured(
    plan: &CompiledContract,
    make_schema: &dyn Fn() -> Schema,
    batches: &[Batch],
    long: &[Vec<Vec<bool>>],
    measured: &Measurements,
) -> FastValidationReport {
    let options = ExecutionOptions::default();
    let mut account = ResourceAccount::root(ResourceLimits::default());
    let node = account.child(0, u64::MAX, u64::MAX);
    let mut running =
        Execution::begin(plan, &make_schema(), &options, false, &mut account, node).unwrap();
    running.open_references(plan, &options, &mut account, node).unwrap();
    for (i, batch) in batches.iter().enumerate() {
        let nothing: Vec<Vec<bool>> = Vec::new();
        let gaps = long.get(i).unwrap_or(&nothing);
        let runs = running
            .update(
                plan,
                &make_schema(),
                batch,
                gaps,
                options.cancellation.is_cancelled(),
                &mut account,
                node,
            )
            .unwrap();
        assert!(runs.unique.iter().all(|r| r.is_empty()));
    }
    let stored: Vec<Vec<&[u8]>> = running.unique.iter().map(|_| Vec::new()).collect();
    let summaries =
        finish_unique_states(running.unique, &mut account, &stored, options.cancellation.is_cancelled()).unwrap();
    let mut validation = running.validation;
    let unique =
        report_unique(plan.columns(), &summaries, &mut account, node, &mut validation).unwrap();
    let dataset_stored = DatasetStored {
        distinct: running.dataset.distinct.iter().map(|_| Vec::new()).collect(),
        composites: running.dataset.composites.iter().map(|_| Vec::new()).collect(),
        conditional: running.dataset.conditional.iter().map(|_| Vec::new()).collect(),
    };
    let finished =
        running.dataset.finish(&mut account, &dataset_stored, options.cancellation.is_cancelled()).unwrap();
    finished.conclude(plan.dataset_plan(), running.rows, measured, &mut validation);
    let metrics = combine(unique, finished.metrics);
    build_report(
        plan,
        &options,
        &account,
        node,
        validation,
        running.rows,
        metrics,
        Vec::new(),
    )
    .unwrap()
}

fn run(
    plan: &CompiledContract,
    make_schema: &dyn Fn() -> Schema,
    batches: &[Batch],
) -> FastValidationReport {
    run_measured(plan, make_schema, batches, &[], &no_measurements())
}

#[test]
fn strict_contract_parser_rejects_unknown_fields() {
    let source = object(vec![
        ("version", text("proofframe.contract.v1")),
        ("columns", object(vec![])),
        ("mystery", Json::Bool(true)),
    ]);
    let error = validate_known_fields(&source).unwrap_err();
    assert_eq!(error.code(), ErrorCode::ContractUnknownField);
}

fn one_unique(name: &str) -> Contract {
    Contract {
        columns: vec![(
            name.to_string(),
            ColumnContract { unique: true, ..ColumnContract::default() },
        )],
        max_findings: 100,
    }
}

#[test]
fn typed_unique_semantics_are_explicit() {
    let instants = || {
        schema(vec![field(
            "ts",
            DataType::Timestamp(TimeUnit::Microsecond, None),
            "Timestamp(\u{b5}s)",
            false,
        )])
    };
    let ast = legacy_contract_ast(&one_unique("ts")).unwrap();
    let plan = CompiledContract::compile(&ast, &instants()).unwrap();
    let ticks = Batch {
        columns: vec![[10, 11, 10]
            .iter()
            .map(|t| Cell::Timestamp(TimeUnit::Microsecond, *t))
            .collect()],
        rows: 3,
    };
    let report = run(&plan, &instants, &[ticks]);
    assert!(!report.valid);
    assert_eq!(report.findings[0].row, Some(2));

    let values = || schema(vec![field("v", DataType::Float64, "Float64", false)]);
    let nan_a: u64 = 0x7ff8_0000_0000_0001;
    let nan_b: u64 = 0x7ff8_0000_0000_0002;
    let ast = legacy_contract_ast(&one_unique("v")).unwrap();
    let plan = CompiledContract::compile(&ast, &values()).unwrap();
    let floats = Batch {
        columns: vec![[(-0.0_f64).to_bits(), 0.0_f64.to_bits(), nan_a, nan_b, nan_a]
            .iter()
            .map(|b| Cell::Float64(*b))
            .collect()],
        rows: 5,
    };
    let report = run(&plan, &values, &[floats]);
    assert_eq!(report.violation_count, 1);
    assert_eq!(report.findings[0].row, Some(4));
}

fn scored() -> Schema {
    schema(vec![
        field("id", DataType::Int64, "Int64", false),
        field("score", DataType::Float64, "Float64", false),
    ])
}

fn range_contract() -> Contract {
    Contract {
        columns: vec![
            (
                "id".to_string(),
                ColumnContract {
                    unique: true,
                    min: Some(legacy_bound(-3.0)),
                    max: Some(legacy_bound(3.0)),
                    ..ColumnContract::default()
                },
            ),
            (
                "score".to_string(),
                ColumnContract {
                    unique: true,
                    min: Some(legacy_bound(-1.0)),
                    max: Some(legacy_bound(1.0)),
                    ..ColumnContract::default()
                },
            ),
        ],
        max_findings: 1000,
    }
}

#[test]
fn full_and_fast_paths_have_same_rule_verdicts() {
    let cases: Vec<Vec<(i64, i32)>> = vec![
        vec![],
        vec![(0, 0)],
        vec![(3, 100), (-3, -100)],
        vec![(4, 101), (-4, -101)],
        vec![(1, 50), (1, 50), (1, 51), (2, 50)],
        vec![(-10, 249), (9, -250), (-10, 249), (0, 0), (0, 1)],
    ];
    for rows in &cases {
        let batch = Batch {
            columns: vec![
                rows.iter().map(|r| Cell::Int64(r.0)).collect(),
                rows.iter()
                    .map(|r| Cell::Float64((f64::from(r.1) / 100.0).to_bits()))
                    .collect(),
            ],
            rows: rows.len(),
        };
        let numbers = vec![
            rows.iter().map(|r| Some((r.0 as f64).to_bits())).collect(),
            rows.iter().map(|r| Some((f64::from(r.1) / 100.0).to_bits())).collect(),
        ];
        let shown = vec![
            rows.iter().map(|r| r.0.to_string()).collect(),
            rows.iter().map(|r| (f64::from(r.1) / 100.0).to_string()).collect(),
        ];
        let contract = range_contract();
        let (mut account, mut scan) = ProfileScan::begin(
            &scored(),
            &contract,
            DistinctMode::Off,
            ResourceLimits::default(),
            None,
        )
        .unwrap();
        scan.update(&scored(), &contract, &scored(), &batch, &shown, &numbers, &mut account)
            .unwrap();
        let never = proofframe::CancellationToken::new();
        let stored = vec![Vec::new(), Vec::new()];
        let (_, full) =
            scan.finish(&scored(), &contract, &mut account, &stored, never.is_cancelled()).unwrap();
        let plan =
            CompiledContract::compile(&legacy_contract_ast(&contract).unwrap(), &scored()).unwrap();
        let fast = run(&plan, &scored, &[batch]);
        assert_eq!(full.violation_count, fast.violation_count);
        let mut a: Vec<(String, String, Option<u64>)> = full
            .findings
            .iter()
            .map(|f| (f.rule.to_string(), f.column.clone(), f.row))
            .collect();
        let mut b: Vec<(String, String, Option<u64>)> = fast
            .findings
            .iter()
            .map(|f| (f.rule.to_string(), f.column.clone(), f.row))
            .collect();
        a.sort();
        b.sort();
        assert_eq!(a, b);
    }
}

#[test]
fn ratio_comparison_does_not_round_large_integer_counts() {
    let rows = u64::MAX;
    let count = rows / 2 + 1;
    assert_eq!(compare_fraction_to_bound(count, rows, 0.5_f64.to_bits()), Order::Greater);
    let tiny = f64::MIN_POSITIVE.to_bits();
    assert_eq!(compare_fraction_to_bound(0, rows, tiny), Order::Less);
    assert_eq!(compare_fraction_to_bound(1, rows, tiny), Order::Greater);
    assert_eq!(compare_fraction_to_bound(1, 2, 0.5_f64.to_bits()), Order::Equal);
}

#[test]
fn an_integer_total_past_i128_is_an_error_rather_than_a_wrapped_number() {
    let mut total = Total::Integer(i128::MAX - 1);
    assert!(total.add_integer(1).is_ok());
    assert!(total.add_integer(1).is_err());
    let mut start = Total::integer();
    start.add_integer(-5).unwrap();
    assert!(matches!(start, Total::Integer(-5)));
}

#[test]
fn contract_versions_are_declared() {
    let one = object(vec![("version", text("proofframe.contract.v1"))]);
    let two = object(vec![("version", text("proofframe.contract.v2"))]);
    let none = object(vec![]);
    let other = object(vec![("version", text("proofframe.contract.v3"))]);
    assert_eq!(declared_version(&one).unwrap(), ContractVersion::V1);
    assert_eq!(declared_version(&two).unwrap(), ContractVersion::V2);
    assert_eq!(declared_version(&none).unwrap_err().path(), Some("$.version"));
    assert!(declared_version(&other).unwrap_err().to_message().contains("proofframe.contract.v3"));
}

#[test]
fn paths_quote_odd_names() {
    assert_eq!(append_path("$", "columns"), "$.columns");
    assert_eq!(column_path("id"), "$.columns.id");
    assert_eq!(column_path("two words"), "$.columns[\"two words\"]");
}

#[test]
fn unknown_fields_of_both_versions_are_named() {
    let columns = object(vec![("id", object(vec![("minimum", number(1))]))]);
    let source = object(vec![("version", text("proofframe.contract.v2")), ("columns", columns)]);
    let error = proofframe::contract::v2::validate_known_fields(&source).unwrap_err();
    assert_eq!(error.code(), ErrorCode::ContractUnknownField);
    assert_eq!(error.path(), Some("$.columns.id.minimum"));
}

#[test]
fn drafts_are_not_run() {
    let mut draft = contract(vec![], vec![], no_dataset_rules());
    draft.status = ContractStatus::Draft;
    let document = ContractDocument::V2(draft);
    assert_eq!(document.ensure_active().unwrap_err().code(), ErrorCode::ContractDraft);
    let active = ContractDocument::V2(contract(vec![], vec![], no_dataset_rules()));
    assert!(active.ensure_active().is_ok());
    assert_eq!(active.version(), ContractVersion::V2);
}

#[test]
fn bounds_are_read_exactly() {
    let path = "$.columns.x.min";
    let int = parse_bound(&bound("-9223372036854775808"), &DataType::Int64, "Int64", path).unwrap();
    assert!(matches!(int, TypedBound::I64(i64::MIN)));
    let wide = parse_bound(&bound("9223372036854775808"), &DataType::Int64, "Int64", path);
    assert_eq!(wide.err().unwrap().code(), ErrorCode::ContractInvalidBound);
    let small = parse_bound(&bound("256"), &DataType::UInt8, "UInt8", path);
    assert_eq!(small.err().unwrap().path(), Some(path));
    assert_eq!(parse_decimal("12.34", 10, 2, path).unwrap(), 1234);
    assert_eq!(parse_decimal("-0.5", 10, 2, path).unwrap(), -50);
    assert_eq!(parse_decimal("1.20", 10, 1, path).unwrap(), 12);
    assert!(parse_decimal("1.25", 10, 1, path).is_err());
    assert!(parse_decimal("12345", 4, 0, path).is_err());
    assert!(parse_decimal("1e3", 10, 2, path).is_err());
    assert_eq!(iso_days("1970-01-02"), Some(1));
    assert_eq!(iso_days("2000-02-30"), None);
    for incomplete in ["2024-1-1", "2024-01", "2024- 1-01", "+024-01-01", "2024-01- 1"] {
        assert_eq!(iso_days(incomplete), None);
    }
    let stamp = BoundAst::Text(spelling("1970-01-01T00:00:01Z"));
    let unit = DataType::Timestamp(TimeUnit::Millisecond, None);
    let at = parse_bound(&stamp, &unit, "Timestamp(ms)", path).unwrap();
    assert!(matches!(at, TypedBound::Timestamp { value: 1000, unit: TimeUnit::Millisecond }));
    let offset = BoundAst::Text(spelling("1970-01-01T01:00:00+01:00"));
    let zero = parse_bound(&offset, &unit, "Timestamp(ms)", path).unwrap();
    assert!(matches!(zero, TypedBound::Timestamp { value: 0, unit: TimeUnit::Millisecond }));
    let bare = BoundAst::Text(spelling("1970-01-01T00:00:01"));
    assert!(parse_bound(&bare, &unit, "Timestamp(ms)", path).is_err());
}

fn pair_schema() -> Schema {
    schema(vec![
        field("a", DataType::Int64, "Int64", true),
        field("b", DataType::Utf8, "Utf8", true),
    ])
}

fn pairs(rows: &[(Option<i64>, Option<&str>)]) -> Batch {
    Batch {
        columns: vec![
            rows.iter()
                .map(|r| match r.0 {
                    Some(v) => Cell::Int64(v),
                    None => Cell::Null,
                })
                .collect(),
            rows.iter()
                .map(|r| match r.1 {
                    Some(v) => Cell::Utf8(v.to_string()),
                    None => Cell::Null,
                })
                .collect(),
        ],
        rows: rows.len(),
    }
}

#[test]
fn compiled_rules_fit_their_columns() {
    let text_min = contract(
        vec![("b", RuleAst { min: Some(bound("1")), ..no_rules() })],
        vec![],
        no_dataset_rules(),
    );
    let error = CompiledContract::compile_v2(&text_min, &pair_schema()).err().unwrap();
    assert_eq!(error.code(), ErrorCode::ContractTypeMismatch);
    let absent = contract(
        vec![("c", RuleAst { required: true, ..no_rules() })],
        vec![],
        no_dataset_rules(),
    );
    let found = CompiledContract::compile_v2(&absent, &pair_schema());
    match found {
        Ok(plan) => assert!(!run(&plan, &pair_schema, &[pairs(&[])]).valid),
        Err(error) => assert_eq!(error.code(), ErrorCode::MissingColumn),
    }
    let crossed = contract(
        vec![(
            "a",
            RuleAst { min: Some(bound("5")), max: Some(bound("4")), ..no_rules() },
        )],
        vec![],
        no_dataset_rules(),
    );
    let error = CompiledContract::compile_v2(&crossed, &pair_schema()).err().unwrap();
    assert_eq!(error.code(), ErrorCode::ContractInvalidBound);
    let mut typed = contract(vec![("a", no_rules())], vec![], no_dataset_rules());
    typed.columns[0].1.expected_type = Some(TypeAst::Primitive(PrimitiveTypeAst::Utf8));
    let error = CompiledContract::compile_v2(&typed, &pair_schema()).err().unwrap();
    assert_eq!(error.code(), ErrorCode::ContractTypeMismatch);
    let broken = contract(
        vec![("b", RuleAst { pattern: Some("(".to_string()), ..no_rules() })],
        vec![],
        no_dataset_rules(),
    );
    assert!(CompiledContract::compile_v2(&broken, &pair_schema()).is_err());
}

#[test]
fn column_rules_report_what_they_reject() {
    let rules = vec![
        (
            "a",
            RuleAst {
                not_null: true,
                min: Some(bound("1")),
                max: Some(bound("3")),
                ..no_rules()
            },
        ),
        (
            "b",
            RuleAst {
                unique: true,
                pattern: Some("^[xy]+$".to_string()),
                allowed: Some(vec!["x".to_string(), "y".to_string()]),
                ..no_rules()
            },
        ),
    ];
    let source = contract(rules, vec![], no_dataset_rules());
    let plan = CompiledContract::compile_v2(&source, &pair_schema()).unwrap();
    let report = run(
        &plan,
        &pair_schema,
        &[
            pairs(&[(Some(1), Some("x")), (Some(4), Some("xy"))]),
            pairs(&[(None, Some("x")), (Some(0), Some("z")), (Some(2), None)]),
        ],
    );
    let mut rules: Vec<(&str, Option<u64>)> =
        report.findings.iter().map(|f| (f.rule, f.row)).collect();
    rules.sort();
    assert_eq!(
        rules,
        vec![
            ("allowed", Some(1)),
            ("allowed", Some(3)),
            ("max", Some(1)),
            ("min", Some(3)),
            ("not_null", Some(2)),
            ("pattern", Some(3)),
            ("unique", Some(2)),
        ]
    );
    assert_eq!(report.violation_count, 7);
    assert_eq!(report.rows, 5);
    assert!(!report.truncated);
}

fn column(name: &str) -> OperandAst {
    OperandAst::Column(ColumnOperandAst { column: name.to_string() })
}

fn literal(value: Json) -> OperandAst {
    OperandAst::Literal(LiteralOperandAst { literal: value })
}

#[test]
fn row_rules_compare_columns_and_literals() {
    let positive = RowRuleAst {
        name: "positive".to_string(),
        compare: Some(CompareAst {
            left: column("a"),
            op: CompareOpAst::Gt,
            right: literal(number(0)),
            nulls: NullPolicyAst::Fail,
        }),
        when: None,
        assertion: None,
    };
    let source = contract(vec![], vec![positive], no_dataset_rules());
    let plan = CompiledContract::compile_v2(&source, &pair_schema()).unwrap();
    let report =
        run(&plan, &pair_schema, &[pairs(&[(Some(1), None), (Some(0), None), (None, None)])]);
    let rows: Vec<Option<u64>> = report.findings.iter().map(|f| f.row).collect();
    assert_eq!(rows, vec![Some(1), Some(2)]);
}

fn ratio(min: Option<f64>, max: Option<f64>) -> RatioRangeAst {
    RatioRangeAst { min: min.map(|v| v.to_bits()), max: max.map(|v| v.to_bits()) }
}

#[test]
fn dataset_rules_see_every_row() {
    let rules = DatasetRulesAst {
        row_count: Some(CountRangeAst { exact: Some(4), min: None, max: None }),
        composite_unique: vec![CompositeUniqueAst {
            name: "pair".to_string(),
            columns: vec!["a".to_string(), "b".to_string()],
            nulls: CompositeNullPolicyAst::Equal,
        }],
        null_ratio: vec![("b".to_string(), ratio(None, Some(0.25)))],
        distinct_count: vec![(
            "a".to_string(),
            CountRangeAst { exact: None, min: Some(3), max: None },
        )],
        distinct_ratio: vec![("a".to_string(), ratio(Some(0.9), None))],
        monotonicity: vec![MonotonicityAst {
            name: "rising".to_string(),
            column: "a".to_string(),
            direction: MonotonicDirectionAst::StrictlyIncreasing,
            nulls: MonotonicNullPolicyAst::Skip,
        }],
        sum: vec![SumAst {
            name: "total".to_string(),
            column: "a".to_string(),
            min: None,
            max: Some(bound("3")),
        }],
        mutually_exclusive: vec![MutuallyExclusiveAst {
            name: "one".to_string(),
            columns: vec!["a".to_string(), "b".to_string()],
            mode: ExclusiveModeAst::AtMostOne,
        }],
        ..no_dataset_rules()
    };
    let source = contract(vec![], vec![], rules);
    let plan = CompiledContract::compile_v2(&source, &pair_schema()).unwrap();
    assert!(requires_global_state(&plan));
    let measured = Measurements {
        totals: vec![Measured {
            bits: 0,
            shown: String::new(),
            min_shown: String::new(),
            max_shown: String::new(),
        }],
        null_ratios: vec!["0.666667".to_string()],
        distinct_ratios: vec!["0.666667".to_string()],
        ..no_measurements()
    };
    let rows = [(Some(1), None), (Some(2), Some("x")), (Some(1), None)];
    for cut in [vec![0..3], vec![0..2, 2..3], vec![0..1, 1..2, 2..3], vec![0..0, 0..3]] {
        let batches: Vec<Batch> = cut.into_iter().map(|part| pairs(&rows[part])).collect();
        let report = run_measured(&plan, &pair_schema, &batches, &[], &measured);
        let mut rules: Vec<(&str, Option<u64>)> =
            report.findings.iter().map(|f| (f.rule, f.row)).collect();
        rules.sort();
        assert_eq!(
            rules,
            vec![
                ("composite_unique", Some(2)),
                ("distinct_count", None),
                ("distinct_ratio", None),
                ("monotonicity", Some(2)),
                ("mutually_exclusive", Some(1)),
                ("null_ratio", None),
                ("row_count", None),
                ("sum", None),
            ]
        );
    }
}

#[test]
fn conditional_uniqueness_holds_where_the_condition_does() {
    let rules = DatasetRulesAst {
        conditional_unique: vec![ConditionalUniqueAst {
            name: "active".to_string(),
            columns: vec!["a".to_string()],
            nulls: CompositeNullPolicyAst::Equal,
            when: CompareAst {
                left: column("b"),
                op: CompareOpAst::Eq,
                right: literal(text("on")),
                nulls: NullPolicyAst::Skip,
            },
        }],
        ..no_dataset_rules()
    };
    let plan =
        CompiledContract::compile_v2(&contract(vec![], vec![], rules), &pair_schema()).unwrap();
    let rows = [
        (Some(1), Some("on")),
        (Some(1), Some("off")),
        (Some(1), None),
        (Some(1), Some("on")),
    ];
    let report = run(&plan, &pair_schema, &[pairs(&rows)]);
    assert_eq!(report.violation_count, 1);
    assert_eq!(report.findings[0].row, Some(3));
}

#[test]
fn gaps_are_counted_against_their_limit() {
    let rules = DatasetRulesAst {
        gap_detection: vec![GapDetectionAst {
            name: "steady".to_string(),
            column: "t".to_string(),
            expected_step: 10.0_f64.to_bits(),
            tolerance: 0.0_f64.to_bits(),
            max_gaps: 0,
            nulls: MonotonicNullPolicyAst::Skip,
        }],
        ..no_dataset_rules()
    };
    let times = || {
        schema(vec![field(
            "t",
            DataType::Timestamp(TimeUnit::Second, None),
            "Timestamp(s)",
            false,
        )])
    };
    let plan = CompiledContract::compile_v2(&contract(vec![], vec![], rules), &times()).unwrap();
    let batch = Batch {
        columns: vec![[0, 10, 40]
            .iter()
            .map(|t| Cell::Timestamp(TimeUnit::Second, *t))
            .collect()],
        rows: 3,
    };
    let measured = Measurements { steps: vec!["10".to_string()], ..no_measurements() };
    let report = run_measured(
        &plan,
        &times,
        &[batch],
        &[vec![vec![false, false, true]]],
        &measured,
    );
    assert!(!report.valid);
    assert_eq!(report.findings[0].rule, "gap_detection");
}

#[test]
fn semantics_of_ratios_and_references_are_checked() {
    let high = DatasetRulesAst {
        null_ratio: vec![("a".to_string(), ratio(None, Some(1.5)))],
        ..no_dataset_rules()
    };
    let error = validate_semantics(&contract(vec![], vec![], high)).unwrap_err();
    assert_eq!(error.code(), ErrorCode::ContractInvalidRatio);
    let uneven = DatasetRulesAst {
        references: vec![ReferenceAst {
            name: "owner".to_string(),
            columns: vec!["a".to_string()],
            reference: "owners".to_string(),
            reference_columns: vec!["x".to_string(), "y".to_string()],
            nulls: ReferenceNullPolicyAst::Skip,
        }],
        ..no_dataset_rules()
    };
    assert!(validate_semantics(&contract(vec![], vec![], uneven)).is_err());
    let owner = |reference: &str| ReferenceAst {
        name: "same".to_string(),
        columns: vec!["a".to_string()],
        reference: reference.to_string(),
        reference_columns: vec!["x".to_string()],
        nulls: ReferenceNullPolicyAst::Skip,
    };
    let twice =
        DatasetRulesAst { references: vec![owner("one"), owner("two")], ..no_dataset_rules() };
    let error = validate_semantics(&contract(vec![], vec![], twice)).unwrap_err();
    assert_eq!(error.code(), ErrorCode::ContractDuplicateRule);
}

#[test]
fn plans_without_rules_are_empty() {
    assert!(DatasetPlan::empty().is_empty());
    assert_eq!(StatisticKind::Mean.label(), "mean");
    assert_eq!(StatisticKind::StdDev.label(), "std_dev");
    let plan = CompiledContract::compile_v2(
        &contract(vec![], vec![], no_dataset_rules()),
        &pair_schema(),
    )
    .unwrap();
    assert!(!requires_global_state(&plan));
    let report = run(&plan, &pair_schema, &[pairs(&[(None, None)])]);
    assert!(report.valid);
    assert_eq!(report.compiled_plan_digest, plan.compiled_plan_digest().unwrap());
    assert_eq!(report.schema_digest, plan.schema_digest().unwrap());
}

#[test]
fn batch_boundaries_change_no_verdict() {
    let rules = || {
        vec![
            ("a", RuleAst { not_null: true, unique: true, ..no_rules() }),
            ("b", RuleAst { pattern: Some("^x".to_string()), ..no_rules() }),
        ]
    };
    let plan = CompiledContract::compile_v2(
        &contract(rules(), vec![], no_dataset_rules()),
        &pair_schema(),
    )
    .unwrap();
    let all = [(Some(1), Some("x")), (None, Some("y")), (Some(1), None), (Some(2), Some("z"))];
    let whole = run(&plan, &pair_schema, &[pairs(&all)]);
    let split =
        run(&plan, &pair_schema, &[pairs(&all[..1]), pairs(&[]), pairs(&all[1..3]), pairs(&all[3..])]);
    assert_eq!(whole.violation_count, split.violation_count);
    let view = |r: &FastValidationReport| {
        let mut v: Vec<(&'static str, Option<u64>)> =
            r.findings.iter().map(|f| (f.rule, f.row)).collect();
        v.sort();
        v
    };
    assert_eq!(view(&whole), view(&split));
}

#[test]
fn partitions_are_routed_and_merged() {
    let plan = CompiledContract::compile_v2(
        &contract(
            vec![("a", RuleAst { not_null: true, ..no_rules() })],
            vec![],
            no_dataset_rules(),
        ),
        &pair_schema(),
    )
    .unwrap();
    assert_eq!(route_partitions(&plan, 2, true).unwrap(), PartitionRoute::Independent);
    let global = CompiledContract::compile_v2(
        &contract(
            vec![("a", RuleAst { unique: true, ..no_rules() })],
            vec![],
            no_dataset_rules(),
        ),
        &pair_schema(),
    )
    .unwrap();
    assert_eq!(route_partitions(&global, 2, false).unwrap(), PartitionRoute::Ordered);
    let unused = route_partitions(&plan, 2, false).unwrap_err();
    assert_eq!(unused.code(), ErrorCode::ReferenceUnbound);
    assert_eq!(worker_count(Some(3), 8, 2), 2);
    assert_eq!(worker_count(None, 8, 100), 8);
    let first = run(&plan, &pair_schema, &[pairs(&[(Some(1), None), (None, None)])]);
    let second = run(&plan, &pair_schema, &[pairs(&[(None, None)])]);
    let options = ExecutionOptions::default();
    let merged = merge_reports(&vec![first, second], &plan, &options).unwrap();
    assert_eq!(merged.rows, 3);
    assert_eq!(merged.violation_count, 2);
    let rows: Vec<Option<u64>> = merged.findings.iter().map(|f| f.row).collect();
    assert_eq!(rows, vec![Some(1), Some(2)]);
}

#[test]
fn other_schemas_and_cancelled_runs_stop() {
    let plan = CompiledContract::compile_v2(
        &contract(vec![], vec![], no_dataset_rules()),
        &pair_schema(),
    )
    .unwrap();
    let mut options = ExecutionOptions { spill: SpillPolicy::Never, ..ExecutionOptions::default() };
    let mut account = ResourceAccount::root(ResourceLimits::default());
    let node = account.child(0, u64::MAX, u64::MAX);
    let other = schema(vec![field("a", DataType::Int64, "Int64", true)]);
    let refused = Execution::begin(&plan, &other, &options, false, &mut account, node);
    assert_eq!(refused.err().unwrap().code(), ErrorCode::SchemaMismatch);
    let mut running =
        Execution::begin(&plan, &pair_schema(), &options, true, &mut account, node).unwrap();
    running.open_references(&plan, &options, &mut account, node).unwrap();
    options.cancellation.cancel();
    let stopped = running.update(
        &plan,
        &pair_schema(),
        &pairs(&[]),
        &Vec::new(),
        options.cancellation.is_cancelled(),
        &mut account,
        node,
    );
    assert_eq!(stopped.err().unwrap().code(), ErrorCode::Cancelled);
}

#[test]
fn plan_digests_follow_the_rules() {
    let with = |max: &str| {
        CompiledContract::compile_v2(
            &contract(
                vec![("a", RuleAst { max: Some(bound(max)), ..no_rules() })],
                vec![],
                no_dataset_rules(),
            ),
            &pair_schema(),
        )
        .unwrap()
    };
    let one = with("1").compiled_plan_digest().unwrap();
    assert_eq!(one, with("1").compiled_plan_digest().unwrap());
    assert_ne!(one, with("2").compiled_plan_digest().unwrap());
    assert_eq!(with("1").schema_digest().unwrap(), with("2").schema_digest().unwrap());
}

#[test]
fn rules_over_several_columns_ignore_batch_boundaries() {
    let rules = DatasetRulesAst {
        composite_unique: vec![CompositeUniqueAst {
            name: "pair".to_string(),
            columns: vec!["a".to_string(), "b".to_string()],
            nulls: CompositeNullPolicyAst::Reject,
        }],
        mutually_exclusive: vec![MutuallyExclusiveAst {
            name: "one".to_string(),
            columns: vec!["a".to_string(), "b".to_string()],
            mode: ExclusiveModeAst::ExactlyOne,
        }],
        ..no_dataset_rules()
    };
    let positive = RowRuleAst {
        name: "positive".to_string(),
        compare: Some(CompareAst {
            left: literal(number(0)),
            op: CompareOpAst::Lt,
            right: column("a"),
            nulls: NullPolicyAst::Skip,
        }),
        when: None,
        assertion: None,
    };
    let plan =
        CompiledContract::compile_v2(&contract(vec![], vec![positive], rules), &pair_schema())
            .unwrap();
    let all = [
        (Some(1), Some("x")),
        (Some(-1), None),
        (Some(1), Some("x")),
        (None, None),
        (Some(1), Some("x")),
    ];
    let whole = run(&plan, &pair_schema, &[pairs(&all)]);
    let split = run(&plan, &pair_schema, &[pairs(&all[..2]), pairs(&all[2..3]), pairs(&all[3..])]);
    let view = |r: &FastValidationReport| {
        let mut v: Vec<(&'static str, Option<u64>)> =
            r.findings.iter().map(|f| (f.rule, f.row)).collect();
        v.sort();
        v
    };
    assert_eq!(
        view(&whole),
        vec![
            ("compare", Some(1)),
            ("composite_unique", Some(1)),
            ("composite_unique", Some(2)),
            ("composite_unique", Some(3)),
            ("composite_unique", Some(4)),
            ("mutually_exclusive", Some(0)),
            ("mutually_exclusive", Some(2)),
            ("mutually_exclusive", Some(3)),
            ("mutually_exclusive", Some(4)),
        ]
    );
    assert_eq!(view(&whole), view(&split));
}

#[test]
fn totals_that_drift_apart_are_found() {
    let plan = BalanceEqualPlan {
        name: "books".to_string(),
        left: 0,
        left_column: "debit".to_string(),
        right: 1,
        right_column: "credit".to_string(),
        tolerance: 0.5f64.to_bits(),
    };
    let totals = |distance: f64| BalanceTotals {
        left: "10".to_string(),
        right: "9".to_string(),
        distance: distance.to_bits(),
    };
    assert!(balance_verdict(&plan, &totals(0.5)).is_none());
    assert!(balance_verdict(&plan, &totals(f64::NAN)).is_none());
    let found = balance_verdict(&plan, &totals(1.0)).unwrap();
    assert_eq!((found.rule, found.column.as_str()), ("balance_equal", "$dataset"));
    assert_eq!(found.message, "Rule `books` has `debit` totalling 10 and `credit` totalling 9");
}

#[test]
fn one_value_may_not_fill_a_column() {
    let plan = DominantValuePlan {
        column_index: 0,
        column: "c".to_string(),
        name: "varied".to_string(),
        max: 0.5f64.to_bits(),
    };
    let seen = |share: f64| {
        Some(DominantShare {
            share: share.to_bits(),
            shown: share.to_string(),
            rows: 3,
            max_shown: "0.5".to_string(),
        })
    };
    assert!(dominant_verdict(&plan, &None).is_none());
    assert!(dominant_verdict(&plan, &seen(0.5)).is_none());
    let found = dominant_verdict(&plan, &seen(0.75)).unwrap();
    assert_eq!((found.rule, found.column.as_str()), ("max_dominant_value_ratio", "c"));
    assert_eq!(
        found.message,
        "Rule `varied` has one value in 3 row(s), a share of 0.75, above the maximum 0.5"
    );
    assert_eq!(counted_key(&Cell::Null, "Int64").unwrap(), vec![0]);
    let one = counted_key(&Cell::Int64(1), "Int64").unwrap();
    assert_eq!(one[0], 1);
    assert_ne!(one, counted_key(&Cell::Int64(2), "Int64").unwrap());
    let nested = counted_key(&Cell::List(Vec::new()), "List").err().unwrap();
    assert_eq!(nested.code(), ErrorCode::UnsupportedType);
}
