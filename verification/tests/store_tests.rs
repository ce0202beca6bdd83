use checkin_ledger::ledger::Ledger;
use checkin_ledger::records::{AdmissionType, LedgerRecord, LoadError};
use checkin_ledger::roster::Roster;

fn lines(rows: &[&str]) -> Vec<String> {
    rows.iter().map(|r| r.to_string()).collect()
}

#[test]
fn empty_stream_gets_header_exactly_once() {
    let mut led = Ledger::new(Vec::new());
    assert!(led.ensure_initialized());
    assert_eq!(led.lines, vec!["id,name,accessType"]);
    assert!(!led.ensure_initialized());
    assert_eq!(led.lines, vec!["id,name,accessType"]);
}

#[test]
fn populated_stream_is_left_untouched() {
    let rows = lines(&["id,name,accessType", "A1,Alice,normal"]);
    let mut led = Ledger::new(rows.clone());
    assert!(!led.ensure_initialized());
    assert_eq!(led.lines, rows);
}

#[test]
fn membership_rescans_and_normalizes() {
    let led = Ledger::new(lines(&["id,name,accessType", "a1,Alice,normal"]));
    assert!(led.contains("A1"));
    assert!(led.contains(" a1 "));
    assert!(!led.contains("B2"));
    assert!(!led.contains("id"));
    assert_eq!(led.count(), 1);
}

#[test]
fn append_adds_one_encoded_line() {
    let mut led = Ledger::new(lines(&["id,name,accessType"]));
    let rec = LedgerRecord {
        id: "B2".to_string(),
        name: "Bob".to_string(),
        admission: AdmissionType::Normal,
    };
    let written = led.append(&rec);
    assert_eq!(written, "B2,Bob,normal");
    assert_eq!(led.lines, vec!["id,name,accessType", "B2,Bob,normal"]);
    assert_eq!(led.count(), 1);
}

#[test]
fn roster_loads_rows_after_header() {
    let source = lines(&["id,name,extra", "a1,Alice,x", "B2,Bob,y"]);
    let roster = Roster::load(&source).expect("two well-formed rows must load");
    assert_eq!(roster.entries.len(), 2);
    assert_eq!(roster.entries[0].id, "a1");
    assert_eq!(roster.entries[0].name, "Alice");
    assert!(roster.contains("A1"));
    assert!(roster.contains("b2"));
    assert!(!roster.contains("C3"));
    let found = roster.find("A1").expect("a1 must be found case-normalized");
    assert_eq!(found.name, "Alice");
}

#[test]
fn roster_rejects_short_rows() {
    let source = lines(&["id,name", "A1,Alice", "lonely"]);
    assert!(matches!(Roster::load(&source), Err(LoadError::Malformed)));
}

#[test]
fn header_only_and_empty_sources_load_empty_rosters() {
    assert_eq!(Roster::load(&lines(&["id,name"])).unwrap().entries.len(), 0);
    assert_eq!(Roster::load(&Vec::new()).unwrap().entries.len(), 0);
}

#[test]
fn roster_find_returns_first_match() {
    let source = lines(&["id,name", "A1,First", "a1,Second"]);
    let roster = Roster::load(&source).unwrap();
    assert_eq!(roster.find("A1").unwrap().name, "First");
}
