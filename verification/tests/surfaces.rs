use proofframe::contract::json::{Json, JsonNumber};
use proofframe::diff::accumulate::DiffOutput;
use proofframe::fingerprint::{Fingerprint, FingerprintVersion};
use proofframe::review::disclose::{python_json, python_string};
use proofframe::review::escape::{
    bound, escape_str, markdown_escape_str, render_html, render_markdown, scalar, Segment,
};
use proofframe::review::{fingerprint, review_html, review_markdown, unexercised};
use proofframe::surface::attest::{
    assemble_evidence, report_bool, report_u64, require_report_digest, require_report_rows,
    with_source_digest, Identities,
};
use proofframe::surface::browser::{
    as_text_where_empty, check_payload, result_names, schema_columns, set_contract_status,
    unsupported_rule, without_unsupported,
};
use proofframe::surface::csv::{preview_rows, read_csv};
use proofframe::surface::members::{remove_member, set_member};
use proofframe::surface::requests::{
    diff_output, error_class, limits, parse_fingerprint_version, resource_detail, worker_count,
    ErrorClass,
};
use proofframe::value::{Cell, DataType, Field, Schema, TimeUnit};
use proofframe::{ErrorCode, ProofFrameError, ResourceAccount, ResourceLimits};

fn number(value: u64) -> Json {
    Json::Number(JsonNumber {
        text: value.to_string(),
        as_i64: i64::try_from(value).ok(),
        as_u64: Some(value),
        as_float64: Some((value as f64).to_bits()),
        as_float32: (value as f32).to_bits(),
    })
}

fn text(value: &str) -> Json {
    Json::Text(value.to_string())
}

fn object(members: Vec<(&str, Json)>) -> Json {
    Json::Object(members.into_iter().map(|m| (m.0.to_string(), m.1)).collect())
}

fn finding(rule: &str, column: &str, message: &str) -> Json {
    object(vec![
        ("rule", text(rule)),
        ("column", text(column)),
        ("row", number(3)),
        ("message", text(message)),
    ])
}

fn report(valid: bool) -> Json {
    let found = if valid { vec![] } else { vec![finding("max", "a<b", "too & large")] };
    let count = found.len() as u64;
    object(vec![
        ("valid", Json::Bool(valid)),
        ("violation_count", number(count)),
        ("truncated", Json::Bool(false)),
        ("findings", Json::Array(found)),
        ("rows", number(7)),
        ("evaluated_columns", Json::Array(vec![number(7)])),
        ("evaluated_indices", Json::Array(vec![number(0)])),
        ("compiled_plan_digest", text("pf-plan-v2:1")),
        ("schema_digest", text("pf-schema-v1:1")),
        ("metrics", object(vec![])),
    ])
}

fn evidence() -> Json {
    object(vec![
        ("contract_source_digest", text("pf-contract-v2:1")),
        ("engine", object(vec![("name", text("proofframe")), ("version", text("1"))])),
        (
            "dataset",
            object(vec![
                ("fingerprint_version", text("v2")),
                (
                    "fingerprint_digest",
                    Json::Array((0..32).map(|_| number(1)).collect()),
                ),
                ("rows", number(7)),
            ]),
        ),
    ])
}

#[test]
fn data_is_escaped_in_both_renderings() {
    assert_eq!(escape_str("<a href=\"x\">&'"), "&lt;a href=&quot;x&quot;&gt;&amp;&#x27;");
    let parts = vec![
        Segment::Own("<b>".to_string()),
        Segment::Data("<b>".to_string()),
        Segment::Own("</b>".to_string()),
    ];
    assert_eq!(render_html(&parts), "<b>&lt;b&gt;</b>");
    assert!(!markdown_escape_str("a|b<c").contains("<c"));
    assert!(render_markdown(&parts).starts_with("<b>"));
    assert_eq!(scalar(&Json::Bool(true)), "True");
    assert_eq!(scalar(&text("x")), "x");
    assert_eq!(bound("short"), "short");
    let long: String = (0..5000).map(|_| 'x').collect();
    assert!(bound(&long).chars().count() < 5000);
}

#[test]
fn disclosed_contracts_are_spelled_plainly() {
    assert_eq!(python_string("a\u{e9}\n"), "\"a\\u00e9\\n\"");
    assert_eq!(python_json(&Json::Array(vec![]), ""), "[]");
    assert_eq!(python_json(&object(vec![]), ""), "{}");
}

#[test]
fn pages_show_verdicts_without_markup_from_data() {
    let names = vec!["a<b".to_string()];
    let page = review_html(&report(false), &evidence(), &object(vec![]), "<label>", &names).unwrap();
    assert!(page.contains("&lt;label&gt;"));
    assert!(!page.contains("<label>"));
    assert!(!page.contains("a<b"));
    assert!(page.contains("too &amp; large"));
    let good = review_html(&report(true), &evidence(), &object(vec![]), "x", &names).unwrap();
    assert_ne!(page, good);
    let summary = review_markdown(&report(false), &evidence(), "label", &names).unwrap();
    assert!(summary.contains("label"));
    let missing = review_html(&object(vec![]), &evidence(), &object(vec![]), "x", &names);
    assert!(missing.is_err());
    assert!(fingerprint(&evidence()).unwrap().starts_with("pf-fp-v2:0101"));
    assert!(fingerprint(&object(vec![])).is_err());
}

#[test]
fn columns_without_values_are_named() {
    let idle = object(vec![
        ("evaluated_columns", Json::Array(vec![number(0), number(3)])),
        ("evaluated_indices", Json::Array(vec![number(0), number(1)])),
    ]);
    let names = vec!["a".to_string(), "b".to_string()];
    assert_eq!(unexercised(&idle, &names), vec!["a".to_string()]);
}

#[test]
fn members_are_set_read_and_removed() {
    let mut members: Vec<(String, Json)> = Vec::new();
    set_member(&mut members, "b", number(1));
    set_member(&mut members, "a", number(2));
    set_member(&mut members, "b", number(3));
    assert_eq!(members.len(), 2);
    remove_member(&mut members, "b");
    assert_eq!(members.len(), 1);
    assert_eq!(members[0].0, "a");
}

#[test]
fn requests_are_read() {
    assert_eq!(parse_fingerprint_version("v1").unwrap(), FingerprintVersion::V1);
    assert_eq!(parse_fingerprint_version("v2").unwrap(), FingerprintVersion::V2);
    assert!(parse_fingerprint_version("v3").is_err());
    assert_eq!(limits(1, 2, 3, 4).max_samples, 4);
    assert!(worker_count(Some(0)).is_err());
    assert_eq!(worker_count(Some(2)).unwrap(), Some(2));
    assert_eq!(worker_count(None).unwrap(), None);
    let lines = diff_output(Some("p".to_string()), "jsonl").unwrap();
    assert!(matches!(lines, Some(DiffOutput::JsonLines(_))));
    assert!(diff_output(Some("p".to_string()), "csv").is_err());
    assert!(diff_output(None, "jsonl").unwrap().is_none());
    assert_eq!(error_class(ErrorCode::SchemaMismatch), ErrorClass::Schema);
    assert_eq!(error_class(ErrorCode::CorruptPartition), ErrorClass::CorruptData);
    let mut account = ResourceAccount::root(limits(8, 8, 1, 1));
    let error = account.try_reserve_memory(0, 9).err().unwrap();
    let detail = resource_detail(&error).unwrap();
    assert_eq!((detail.requested_bytes, detail.remaining_bytes), (9, 8));
    assert!(resource_detail(&ProofFrameError::Cancelled).is_none());
}

#[test]
fn reports_are_read_for_evidence() {
    assert_eq!(report_u64(&report(true), "rows").unwrap(), 7);
    assert!(report_u64(&report(true), "valid").is_err());
    assert!(report_bool(&report(true), "valid").unwrap());
    assert!(report_bool(&report(true), "rows").is_err());
    assert!(require_report_digest(&report(true), "schema_digest", "pf-schema-v1:1").is_ok());
    assert!(require_report_digest(&report(true), "schema_digest", "other").is_err());
    assert!(require_report_rows(&report(true), 7).is_ok());
    assert!(require_report_rows(&report(true), 8).is_err());
    let sourced = with_source_digest(report(true), "pf-contract-v2:9").unwrap();
    match sourced.field("contract_source_digest") {
        Some(Json::Text(t)) => assert_eq!(t, "pf-contract-v2:9"),
        other => panic!("{:?}", other),
    }
}

const D: &str = "1111111111111111111111111111111111111111111111111111111111111111";

#[test]
fn evidence_is_assembled_from_a_report() {
    let source = format!("pf-contract-v2:{}", D);
    let plan = format!("pf-plan-v2:{}", D);
    let columns = format!("pf-schema-v1:{}", D);
    let mut members = match report(true) {
        Json::Object(m) => m,
        _ => panic!("not an object"),
    };
    set_member(&mut members, "compiled_plan_digest", text(&plan));
    set_member(&mut members, "schema_digest", text(&columns));
    set_member(&mut members, "contract_source_digest", text(&source));
    set_member(&mut members, "references", Json::Array(vec![]));
    let full = Json::Object(members);
    let ids = Identities {
        source_digest: &source,
        compiled_plan_digest: &plan,
        schema_digest: &columns,
        engine_version: "1",
    };
    let print = Fingerprint::new(FingerprintVersion::V2, [1; 32], 7);
    let made = assemble_evidence(&full, &ids, ResourceLimits::default(), &print);
    match made {
        Ok(e) => {
            assert!(e.validate().is_ok());
            assert_eq!(e.dataset.rows, 7);
            assert_eq!(e.schema_digest, columns);
        }
        Err(e) => panic!("{}", e.to_message()),
    }
}

#[test]
fn pages_drop_rules_that_need_a_second_table() {
    let with = object(vec![(
        "dataset_rules",
        object(vec![("references", Json::Array(vec![number(1)]))]),
    )]);
    assert!(unsupported_rule(&with).is_some());
    let without = without_unsupported(with);
    assert!(unsupported_rule(&without).is_none());
    assert!(set_contract_status(text("x"), "active").is_err());
    let set = set_contract_status(object(vec![]), "draft").unwrap();
    assert!(set.field("status").is_some());
}

fn mixed() -> &'static [u8] {
    b"n,b,f,d,t,w,e\n\
      1,true,1.5,1970-01-03,1970-01-01T00:00:02,one,\n\
      ,false,,,,,\n\
      -7,true,-2.0,1969-12-31,1970-01-01T00:00:03,two,\n"
}

#[test]
fn tables_are_read_with_the_types_of_their_columns() {
    let table = read_csv(mixed(), b',', true).unwrap();
    let kinds: Vec<&str> = table.schema.fields.iter().map(|f| f.type_text.as_str()).collect();
    assert_eq!(kinds[..4], ["Int64", "Boolean", "Float64", "Date32"]);
    assert_eq!(kinds[4], "Timestamp(s)");
    assert_eq!(kinds[5..], ["Utf8", "Utf8"]);
    let names: Vec<&str> = table.schema.fields.iter().map(|f| f.name.as_str()).collect();
    assert_eq!(names, ["n", "b", "f", "d", "t", "w", "e"]);
    assert_eq!(table.failure, None);
    assert_eq!(table.batches.len(), 1);
    let rows = &table.batches[0];
    assert_eq!(rows.rows, 3);
    assert!(matches!(rows.columns[0][0], Cell::Int64(1)));
    assert!(matches!(rows.columns[0][1], Cell::Null));
    assert!(matches!(rows.columns[0][2], Cell::Int64(-7)));
    assert!(matches!(rows.columns[1][0], Cell::Boolean(true)));
    assert!(matches!(rows.columns[1][1], Cell::Boolean(false)));
    assert!(matches!(rows.columns[2][0], Cell::Float64(bits) if bits == 1.5f64.to_bits()));
    assert!(matches!(rows.columns[2][1], Cell::Null));
    assert!(matches!(rows.columns[3][0], Cell::Date32(2)));
    assert!(matches!(rows.columns[3][2], Cell::Date32(-1)));
    assert!(matches!(rows.columns[4][0], Cell::Timestamp(TimeUnit::Second, 2)));
    assert!(matches!(rows.columns[4][1], Cell::Null));
    assert!(matches!(&rows.columns[5][0], Cell::Utf8(w) if w == "one"));
    assert!(matches!(rows.columns[6][0], Cell::Null));
}

#[test]
fn files_without_names_get_them() {
    let table = read_csv(b"1;x\n2;y\n", b';', false).unwrap();
    let names: Vec<&str> = table.schema.fields.iter().map(|f| f.name.as_str()).collect();
    assert_eq!(names, ["column_1", "column_2"]);
    assert_eq!(table.batches[0].rows, 2);
}

#[test]
fn what_cannot_be_read_is_said() {
    let error = read_csv(b"a,b\n1\n", b',', true).err().unwrap();
    assert!(error.starts_with("could not read the CSV: "));
    assert!(preview_rows(b"a,b\n1\n", b',', true, 0, 5).is_err());
    let mut late = b"a\n".to_vec();
    for row in 0..3000 {
        late.extend(format!("{row}\n").bytes());
    }
    late.extend(b"word\n");
    let table = read_csv(&late, b',', true).unwrap();
    assert!(table.failure.is_some());
    let rows: usize = table.batches.iter().map(|b| b.rows).sum();
    assert!(rows < 3001);
}

#[test]
fn windows_take_the_asked_rows() {
    let preview = preview_rows(mixed(), b',', true, 1, 5).unwrap();
    let places: Vec<u128> = preview.rows.iter().map(|r| r.row).collect();
    assert_eq!(places, [1, 2]);
    assert_eq!(preview.rows[0].cells[0], None);
    assert_eq!(preview.rows[0].cells[1].as_deref(), Some("false"));
    assert_eq!(preview.rows[1].cells[0].as_deref(), Some("-7"));
    assert_eq!(preview.rows[1].cells[2].as_deref(), Some("-2.0"));
    assert_eq!(preview.rows[1].cells[3].as_deref(), Some("1969-12-31"));
    assert_eq!(preview.schema.fields.len(), 7);
    assert_eq!(preview_rows(mixed(), b',', true, 0, 1).unwrap().rows.len(), 1);
    assert!(preview_rows(mixed(), b',', true, 3, 1).unwrap().rows.is_empty());
}

#[test]
fn empty_columns_read_as_text() {
    let schema = Schema {
        fields: vec![Field {
            name: "n".to_string(),
            data_type: DataType::Null,
            type_text: "Null".to_string(),
            nullable: true,
            metadata: Vec::new(),
        }],
        metadata: Vec::new(),
    };
    let read = as_text_where_empty(&schema);
    assert!(matches!(read.fields[0].data_type, DataType::Utf8));
    assert_eq!(schema_columns(&read).len(), 1);
    let result = object(vec![("schema", Json::Array(schema_columns(&read)))]);
    assert_eq!(result_names(&result), vec!["n".to_string()]);
}

#[test]
fn partial_runs_hand_out_no_evidence() {
    let whole = check_payload(object(vec![]), vec![], "fp", report(true), evidence(), None);
    let partial = check_payload(
        object(vec![]),
        vec![],
        "fp",
        report(true),
        evidence(),
        Some("references"),
    );
    let of = |payload: &Vec<(String, Json)>| {
        payload.iter().any(|m| m.0 == "evidence" && !matches!(m.1, Json::Null))
    };
    assert!(of(&whole));
    assert!(!of(&partial));
}

#[test]
fn escapes_stand_side_by_side() {
    let (a, b) = ("a<\"b", "c>&'d");
    let whole = escape_str(&format!("{a}{b}"));
    assert_eq!(whole, escape_str(a) + &escape_str(b));
    let back = whole
        .replace("&lt;", "<")
        .replace("&gt;", ">")
        .replace("&quot;", "\"")
        .replace("&#x27;", "'")
        .replace("&amp;", "&");
    assert_eq!(back, format!("{a}{b}"));
    assert_eq!(escape_str("&lt;"), "&amp;lt;");
    assert_eq!(markdown_escape_str("a*b_c\\"), "a\\*b\\_c\\\\");
}
