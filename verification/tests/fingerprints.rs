use proofframe::encoding::canonical_value_bytes;
use proofframe::fingerprint::{
    fingerprint_v1, fingerprint_v2, FingerprintOptions, FingerprintVersion,
};
use proofframe::profile::columns::DistinctMode;
use proofframe::profile::legacy::Contract;
use proofframe::profile::scan::{Profile, ProfileScan};
use proofframe::value::{Batch, Cell, DataType, Field, Schema, TimeUnit};
use proofframe::{CancellationToken, ErrorCode, ResourceLimits};

fn field(name: &str, data_type: DataType, type_text: &str, nullable: bool) -> Field {
    Field {
        name: name.to_string(),
        data_type,
        type_text: type_text.to_string(),
        nullable,
        metadata: Vec::new(),
    }
}

fn schema(fields: Vec<Field>) -> Schema {
    Schema { fields, metadata: Vec::new() }
}

fn shown(batch: &Batch) -> Vec<Vec<String>> {
    batch.columns.iter().map(|c| c.iter().map(|_| String::new()).collect()).collect()
}

fn numbers(batch: &Batch) -> Vec<Vec<Option<u64>>> {
    batch.columns.iter().map(|c| c.iter().map(|_| None).collect()).collect()
}

fn profile(make_schema: fn() -> Schema, batches: Vec<Batch>) -> Profile {
    let table = make_schema();
    let contract = Contract::empty();
    let (mut account, mut scan) = ProfileScan::begin(
        &table,
        &contract,
        DistinctMode::Off,
        ResourceLimits::default(),
        None,
    )
    .unwrap();
    for batch in &batches {
        scan.update(
            &table,
            &contract,
            &make_schema(),
            batch,
            &shown(batch),
            &numbers(batch),
            &mut account,
        )
        .unwrap();
    }
    let stored = table.fields.iter().map(|_| Vec::new()).collect();
    let never = CancellationToken::new();
    scan.finish(&table, &contract, &mut account, &stored, never.is_cancelled()).unwrap().0
}

fn int_schema() -> Schema {
    schema(vec![field("id", DataType::Int64, "Int64", false)])
}

fn ints(values: &[i64]) -> Batch {
    Batch {
        columns: vec![values.iter().map(|v| Cell::Int64(*v)).collect()],
        rows: values.len(),
    }
}

fn nested_schema() -> Schema {
    let item = field("item", DataType::Int64, "Int64", true);
    let id = field("id", DataType::Int64, "Int64", false);
    let team = field("team", DataType::Utf8, "Utf8", false);
    schema(vec![
        field("tags", DataType::List(Box::new(item)), "List(nullable Int64)", true),
        field("group", DataType::Struct(vec![id, team]), "Struct(id, team)", false),
    ])
}

fn nested_batch(second: i64) -> Batch {
    Batch {
        columns: vec![
            vec![
                Cell::List(vec![Cell::Int64(1), Cell::Int64(2)]),
                Cell::List(vec![Cell::Int64(second)]),
            ],
            vec![
                Cell::Struct(vec![Cell::Int64(10), Cell::Utf8("a".to_string())]),
                Cell::Struct(vec![Cell::Int64(20), Cell::Utf8("b".to_string())]),
            ],
        ],
        rows: 2,
    }
}

#[test]
fn nested_columns_fingerprint_without_error() {
    let first = profile(nested_schema, vec![nested_batch(3)]);
    let repeat = profile(nested_schema, vec![nested_batch(3)]);
    let different = profile(nested_schema, vec![nested_batch(99)]);
    assert!(first.fingerprint.starts_with("pf-fp-v1:"));
    assert_eq!(first.fingerprint, repeat.fingerprint);
    assert_ne!(first.fingerprint, different.fingerprint);
}

fn int_string_schema() -> Schema {
    schema(vec![
        field("id", DataType::Int64, "Int64", false),
        field("name", DataType::Utf8, "Utf8", true),
    ])
}

fn int_string_batch() -> Batch {
    Batch {
        columns: vec![
            vec![Cell::Int64(1), Cell::Int64(2), Cell::Int64(3)],
            vec![Cell::Utf8("a".to_string()), Cell::Null, Cell::Utf8("c".to_string())],
        ],
        rows: 3,
    }
}

const PIN: &str = "pf-fp-v1:4dc74e666725f040dea7e788827d0411e59c19a72b55f2ce27f22ed9a00afb42";

#[test]
fn fingerprint_is_pinned() {
    let fingerprint = profile(int_string_schema, vec![int_string_batch()]).fingerprint;
    assert_eq!(
        fingerprint, PIN,
        "canonical fingerprint changed; update the pin and bump the tag if intentional"
    );
    let direct = fingerprint_v1(&int_string_schema(), &vec![int_string_batch()]).unwrap();
    assert_eq!(direct.to_tagged_string(), PIN);
    assert_eq!(direct.rows(), 3);
}

#[test]
fn fingerprint_ignores_batch_boundaries() {
    let single = profile(int_schema, vec![ints(&[1, 2, 3, 4])]).fingerprint;
    let split = profile(int_schema, vec![ints(&[1, 2]), ints(&[3, 4])]).fingerprint;
    assert_eq!(single, split);
}

#[test]
fn both_versions_ignore_batch_boundaries() {
    let options = FingerprintOptions::new(FingerprintVersion::V2);
    let whole = fingerprint_v2(&int_schema(), &vec![ints(&[1, 2, 3, 4])], &options).unwrap();
    let split = fingerprint_v2(
        &int_schema(),
        &vec![ints(&[1]), ints(&[]), ints(&[2, 3, 4])],
        &options,
    )
    .unwrap();
    assert_eq!(whole.to_tagged_string(), split.to_tagged_string());
    assert!(whole.to_tagged_string().starts_with("pf-fp-v2:"));
    let one = fingerprint_v1(&int_schema(), &vec![ints(&[1, 2, 3, 4])]).unwrap();
    let two = fingerprint_v1(&int_schema(), &vec![ints(&[1, 2]), ints(&[3, 4])]).unwrap();
    assert_eq!(one.digest(), two.digest());
}

#[test]
fn fingerprint_tracks_data_changes() {
    let options = FingerprintOptions::new(FingerprintVersion::V2);
    let data: Vec<Vec<i64>> = vec![
        vec![0],
        vec![1],
        vec![-1],
        vec![0, 0],
        vec![0, 1],
        vec![1, 0],
        vec![i64::MAX],
        vec![i64::MIN],
        vec![256],
    ];
    for left in &data {
        for right in &data {
            let a = fingerprint_v1(&int_schema(), &vec![ints(left)]).unwrap();
            let b = fingerprint_v1(&int_schema(), &vec![ints(right)]).unwrap();
            assert_eq!(left == right, a.digest() == b.digest());
            let c = fingerprint_v2(&int_schema(), &vec![ints(left)], &options).unwrap();
            let d = fingerprint_v2(&int_schema(), &vec![ints(right)], &options).unwrap();
            assert_eq!(left == right, c.digest() == d.digest());
        }
    }
}

#[test]
fn a_list_never_has_the_bytes_of_its_element() {
    let bare = canonical_value_bytes(&Cell::Int64(7)).unwrap();
    let list = canonical_value_bytes(&Cell::List(vec![Cell::Int64(7)])).unwrap();
    assert_eq!(bare, vec![4, 7, 0, 0, 0, 0, 0, 0, 0]);
    assert_ne!(bare, list);
    assert_eq!(list[0], 23);
    assert_eq!(canonical_value_bytes(&Cell::Null).unwrap(), vec![0]);
    let text = canonical_value_bytes(&Cell::Utf8("ab".to_string())).unwrap();
    assert_eq!(text, vec![19, 2, 0, 0, 0, 0, 0, 0, 0, 97, 98]);
    let yes = canonical_value_bytes(&Cell::Boolean(true)).unwrap();
    assert_eq!(yes, vec![18, 1]);
    assert!(canonical_value_bytes(&Cell::Other).is_none());
}

#[test]
fn unsupported_types_are_refused_where_a_value_is_met() {
    let table = schema(vec![field("x", DataType::Other, "Duration(s)", true)]);
    let none = Batch { columns: vec![vec![Cell::Null]], rows: 1 };
    let some = Batch { columns: vec![vec![Cell::Other]], rows: 1 };
    let contract = Contract::empty();
    let same = schema(vec![field("x", DataType::Other, "Duration(s)", true)]);
    let (mut account, mut scan) = ProfileScan::begin(
        &table,
        &contract,
        DistinctMode::Off,
        ResourceLimits::default(),
        None,
    )
    .unwrap();
    assert!(scan
        .update(&table, &contract, &same, &none, &shown(&none), &numbers(&none), &mut account)
        .is_ok());
    let error = scan
        .update(&table, &contract, &same, &some, &shown(&some), &numbers(&some), &mut account)
        .unwrap_err();
    assert_eq!(error.code(), ErrorCode::UnsupportedType);
    let refused = fingerprint_v1(&table, &vec![none]).err().unwrap();
    assert_eq!(refused.code(), ErrorCode::UnsupportedType);
}

#[test]
fn schemas_change_fingerprints() {
    let options = FingerprintOptions::new(FingerprintVersion::V2);
    let renamed = schema(vec![field("key", DataType::Int64, "Int64", false)]);
    let nullable = schema(vec![field("id", DataType::Int64, "Int64", true)]);
    let base = fingerprint_v2(&int_schema(), &vec![ints(&[1])], &options).unwrap();
    for other in [renamed, nullable] {
        let print = fingerprint_v2(&other, &vec![ints(&[1])], &options).unwrap();
        assert_ne!(base.digest(), print.digest());
    }
    let stamp = schema(vec![field(
        "t",
        DataType::Timestamp(TimeUnit::Microsecond, None),
        "Timestamp(us)",
        false,
    )]);
    let batch = Batch {
        columns: vec![vec![Cell::Timestamp(TimeUnit::Microsecond, 5)]],
        rows: 1,
    };
    assert!(fingerprint_v2(&stamp, &vec![batch], &options).is_ok());
}

#[test]
fn metadata_counts_only_where_it_is_asked_for() {
    let mut tagged = int_schema();
    tagged.fields[0].metadata.push(("unit".to_string(), "m".to_string()));
    let plain = FingerprintOptions::new(FingerprintVersion::V2);
    let keyed =
        FingerprintOptions::with_metadata_keys(FingerprintVersion::V2, vec!["unit".to_string()]);
    let a = fingerprint_v2(&int_schema(), &vec![ints(&[1])], &plain).unwrap();
    let b = fingerprint_v2(&tagged, &vec![ints(&[1])], &plain).unwrap();
    let c = fingerprint_v2(&tagged, &vec![ints(&[1])], &keyed).unwrap();
    assert_eq!(a.digest(), b.digest());
    assert_ne!(b.digest(), c.digest());
}
