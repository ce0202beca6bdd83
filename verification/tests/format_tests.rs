use checkin_ledger::records::{encode_line, parse_record, AdmissionType, LedgerRecord};
use checkin_ledger::text::{normalize_token, split_fields, str_eq};

#[test]
fn normalize_trims_and_uppercases() {
    assert_eq!(normalize_token("  ab c\t"), "AB C");
    assert_eq!(normalize_token("a1"), "A1");
    assert_eq!(normalize_token("A1"), "A1");
    assert_eq!(normalize_token("   "), "");
    assert_eq!(normalize_token(""), "");
    assert_eq!(normalize_token("\r\nx9\r\n"), "X9");
}

#[test]
fn split_keeps_every_field() {
    assert_eq!(split_fields("a,b,,c"), vec!["a", "b", "", "c"]);
    assert_eq!(split_fields(""), vec![""]);
    assert_eq!(split_fields("lone"), vec!["lone"]);
    assert_eq!(split_fields(",x"), vec!["", "x"]);
    assert_eq!(split_fields("x,"), vec!["x", ""]);
}

#[test]
fn str_eq_compares_by_characters() {
    assert!(str_eq("abc", "abc"));
    assert!(!str_eq("abc", "abd"));
    assert!(!str_eq("abc", "ab"));
    assert!(str_eq("", ""));
}

#[test]
fn encoding_joins_fields_with_commas() {
    let rec = LedgerRecord {
        id: "A1".to_string(),
        name: "Alice".to_string(),
        admission: AdmissionType::Normal,
    };
    assert_eq!(encode_line(&rec), "A1,Alice,normal");
    let bypass = LedgerRecord {
        id: "X1".to_string(),
        name: String::new(),
        admission: AdmissionType::Bypass,
    };
    assert_eq!(encode_line(&bypass), "X1,,special");
}

#[test]
fn parsing_inverts_encoding() {
    let rec = LedgerRecord {
        id: "A1".to_string(),
        name: "Alice".to_string(),
        admission: AdmissionType::Normal,
    };
    let back = parse_record(&encode_line(&rec)).expect("the encoded line must parse");
    assert_eq!(back.id, rec.id);
    assert_eq!(back.name, rec.name);
    assert_eq!(back.admission, rec.admission);
}

#[test]
fn header_and_stray_lines_parse_to_nothing() {
    assert!(parse_record("id,name,accessType").is_none());
    assert!(parse_record("A1,Alice").is_none());
    assert!(parse_record("A1,Alice,normal,extra").is_none());
    assert!(parse_record("A1,Alice,unknown").is_none());
    assert!(parse_record("").is_none());
}
