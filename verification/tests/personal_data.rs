use proofframe::pii::detect::{classify, luhn_filtered, trim, valid_iban, valid_ipv4, Detector};
use proofframe::pii::options::{PiiFingerprintMode, PiiFingerprintOptions};
use proofframe::pii::scan::{scan_pii, ShownBatch};
use proofframe::surface::requests::pii_options;
use proofframe::value::{Batch, Cell, DataType, Field, Schema};
use proofframe::ErrorCode;

fn chars(value: &str) -> Vec<char> {
    value.chars().collect()
}

fn kind(value: &str) -> Option<&'static str> {
    Detector::new().unwrap().classify_cell(value).map(|m| m.kind)
}

#[test]
fn identifies_high_confidence_examples() {
    let detector = Detector::new().unwrap();
    assert_eq!(detector.classify_cell("person@example.com").unwrap().kind, "email");
    assert_eq!(
        detector.classify_cell("4111 1111 1111 1111").unwrap().kind,
        "payment_card"
    );
    assert_eq!(detector.classify_cell("GB82WEST12345698765432").unwrap().kind, "iban");
}

#[test]
fn formatted_iban_and_card_are_checked_without_compaction() {
    let detector = Detector::new().unwrap();
    assert_eq!(
        detector.classify_cell("GB82 WEST 1234 5698 7654 32").unwrap().kind,
        "iban"
    );
    assert!(luhn_filtered(&chars("4111-1111-1111-1111")));
    assert!(!luhn_filtered(&chars("4111-1111-1111-1112")));
}

#[test]
fn letters_never_pass_the_card_check() {
    for value in ["abcdefghijklm", "AAAAAAAAAAAAAAAA", "x", "41111111111111z1"] {
        assert!(!luhn_filtered(&chars(value)));
    }
}

#[test]
fn every_kind_has_its_confidence() {
    let detector = Detector::new().unwrap();
    let phone = detector.classify_cell("+49 (30) 123456").unwrap();
    assert_eq!((phone.kind, phone.confidence), ("phone", "medium"));
    let number = detector.classify_cell("12345678").unwrap();
    assert_eq!((number.kind, number.confidence), ("phone", "medium"));
    let card = detector.classify_cell("4111111111111111").unwrap();
    assert_eq!((card.kind, card.confidence), ("payment_card", "high"));
    let address = detector.classify_cell(" 192.168.0.255 ").unwrap();
    assert_eq!((address.kind, address.confidence), ("ipv4", "high"));
    assert_eq!(kind("192.168.0.256"), None);
    assert_eq!(kind("hello"), None);
    assert_eq!(kind(""), None);
    assert_eq!(kind("not an email @ all"), None);
}

#[test]
fn addresses_have_four_small_numbers() {
    assert!(valid_ipv4(&chars("0.0.0.0")));
    assert!(valid_ipv4(&chars("255.255.255.255")));
    assert!(!valid_ipv4(&chars("1.2.3")));
    assert!(!valid_ipv4(&chars("1.2.3.4.5")));
    assert!(!valid_ipv4(&chars("1..3.4")));
    assert!(!valid_ipv4(&chars("1.2.3.999")));
}

#[test]
fn account_numbers_leave_a_remainder_of_one() {
    assert!(valid_iban(&chars("DE89370400440532013000")));
    assert!(valid_iban(&chars("gb82west12345698765432")));
    assert!(!valid_iban(&chars("DE89370400440532013001")));
    assert!(!valid_iban(&chars("DE89")));
    assert!(!valid_iban(&chars("1289370400440532013000")));
}

#[test]
fn patterns_decide_only_where_the_shape_fits() {
    let value = trim("  a@b.c ");
    assert_eq!(value, chars("a@b.c"));
    assert_eq!(classify(&value, true, false, false).unwrap().kind, "email");
    assert!(classify(&value, false, true, true).is_none());
}

fn table() -> Schema {
    Schema {
        fields: vec![
            Field {
                name: "mail".to_string(),
                data_type: DataType::Utf8,
                type_text: "Utf8".to_string(),
                nullable: true,
                metadata: Vec::new(),
            },
            Field {
                name: "number".to_string(),
                data_type: DataType::Int64,
                type_text: "Int64".to_string(),
                nullable: false,
                metadata: Vec::new(),
            },
        ],
        metadata: Vec::new(),
    }
}

fn rows(cells: &[(Option<&str>, i64)]) -> ShownBatch {
    ShownBatch {
        schema: table(),
        batch: Batch {
            columns: vec![
                cells
                    .iter()
                    .map(|c| match c.0 {
                        Some(t) => Cell::Utf8(t.to_string()),
                        None => Cell::Null,
                    })
                    .collect(),
                cells.iter().map(|c| Cell::Int64(c.1)).collect(),
            ],
            rows: cells.len(),
        },
        shown: vec![
            cells.iter().map(|c| c.0.unwrap_or("").to_string()).collect(),
            cells.iter().map(|c| c.1.to_string()).collect(),
        ],
    }
}

fn key_options() -> PiiFingerprintOptions {
    PiiFingerprintOptions::stable([7; 32], "team".to_string()).unwrap()
}

#[test]
fn scans_count_and_locate_without_the_values() {
    let batches = vec![
        rows(&[(Some("a@b.co"), 1), (None, 12345678), (Some("x"), 2)]),
        rows(&[(Some("a@b.co"), 3)]),
    ];
    let report = scan_pii(&table(), &batches, 2, &key_options()).unwrap();
    assert!(report.detected);
    assert_eq!(report.scanned_rows, 4);
    assert_eq!(report.finding_count, 3);
    assert_eq!(report.counts_by_kind, vec![("email", 2), ("phone", 1)]);
    assert!(report.truncated);
    assert_eq!(report.findings.len(), 2);
    assert_eq!(report.findings[0].column, "mail");
    assert_eq!(report.findings[0].row, 0);
    assert_eq!(report.findings[1].column, "number");
    assert_eq!(report.findings[1].confidence, "medium");
    assert!(report.findings[0].value_fingerprint.starts_with("pf-pii-v2:"));
    assert!(!report.findings[0].value_fingerprint.contains("a@b.co"));
    assert_eq!(report.fingerprint_mode, PiiFingerprintMode::Stable);
    assert_eq!(report.key_id, "team");
}

#[test]
fn batch_boundaries_change_no_detection() {
    let whole = vec![rows(&[(Some("a@b.co"), 1), (Some("c@d.co"), 2), (None, 3)])];
    let split = vec![rows(&[(Some("a@b.co"), 1)]), rows(&[(Some("c@d.co"), 2), (None, 3)])];
    let a = scan_pii(&table(), &whole, 10, &key_options()).unwrap();
    let b = scan_pii(&table(), &split, 10, &key_options()).unwrap();
    assert_eq!(a.finding_count, b.finding_count);
    for (x, y) in a.findings.iter().zip(&b.findings) {
        assert_eq!((x.row, &x.value_fingerprint), (y.row, &y.value_fingerprint));
    }
}

#[test]
fn fingerprints_link_only_under_one_key() {
    let one = key_options();
    let other = PiiFingerprintOptions::stable([8; 32], "team".to_string()).unwrap();
    assert_eq!(one.privacy_fingerprint("v"), key_options().privacy_fingerprint("v"));
    assert_ne!(one.privacy_fingerprint("v"), other.privacy_fingerprint("v"));
    assert_ne!(one.privacy_fingerprint("v"), one.privacy_fingerprint("w"));
    let run = PiiFingerprintOptions::unlinkable().unwrap();
    let next = PiiFingerprintOptions::unlinkable().unwrap();
    assert_ne!(run.privacy_fingerprint("v"), next.privacy_fingerprint("v"));
    let (mode, key_id) = run.provenance();
    assert_eq!(mode, PiiFingerprintMode::Unlinkable);
    assert_eq!(key_id.len(), 20);
    assert!(key_id.starts_with("run:"));
}

#[test]
fn stable_keys_are_named_and_whole() {
    let nameless = PiiFingerprintOptions::stable([1; 32], " ".to_string()).err().unwrap();
    assert_eq!(
        nameless.to_message(),
        "stable PII fingerprints require a non-empty key_id"
    );
    let short = PiiFingerprintOptions::stable_base64("AAAA", "k".to_string()).err().unwrap();
    assert!(short.to_message().ends_with("must encode exactly 32 bytes"));
    assert!(PiiFingerprintOptions::stable_base64("***", "k".to_string()).is_err());
    let key = "AQEBAQEBAQEBAQEBAQEBAQEBAQEBAQEBAQEBAQEBAQE";
    let from_text = PiiFingerprintOptions::stable_base64(key, "k".to_string()).unwrap();
    let from_bytes = PiiFingerprintOptions::stable([1; 32], "k".to_string()).unwrap();
    assert_eq!(from_text.privacy_fingerprint("x"), from_bytes.privacy_fingerprint("x"));
}

#[test]
fn requests_for_fingerprints_are_consistent() {
    assert!(pii_options("unlinkable", None, None).is_ok());
    assert!(pii_options("unlinkable", Some("k".to_string()), None).is_err());
    assert!(pii_options("stable", None, Some("k".to_string())).is_err());
    assert!(pii_options("stable", Some("AAAA".to_string()), None).is_err());
    let other = pii_options("open", None, None).err().unwrap();
    assert!(other.to_message().contains("`open`"));
}

#[test]
fn other_columns_stop_a_scan() {
    let mut changed = rows(&[(None, 1)]);
    changed.schema.fields[0].nullable = false;
    let error = scan_pii(&table(), &vec![changed], 1, &key_options()).unwrap_err();
    assert_eq!(error.code(), ErrorCode::SchemaMismatch);
}
