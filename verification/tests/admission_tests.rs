use checkin_ledger::admission::AdmissionController;
use checkin_ledger::ledger::Ledger;
use checkin_ledger::records::{AdmissionOutcome, AdmissionType};
use checkin_ledger::roster::{Roster, RosterEntry};

fn entry(id: &str, name: &str) -> RosterEntry {
    RosterEntry { id: id.to_string(), name: name.to_string() }
}

fn controller(pairs: &[(&str, &str)], marker: &str) -> AdmissionController {
    let entries: Vec<RosterEntry> = pairs.iter().map(|(i, n)| entry(i, n)).collect();
    AdmissionController::new(Roster::new(entries), marker.to_string())
}

fn initialized_ledger() -> Ledger {
    let mut led = Ledger::new(Vec::new());
    led.ensure_initialized();
    led
}

#[test]
fn accept_then_duplicate_same_key() {
    let c = controller(&[("A1", "Alice")], "!");
    let mut led = initialized_ledger();
    match c.evaluate(&mut led, "a1") {
        AdmissionOutcome::Accepted { record, total_after } => {
            assert_eq!(record.id, "A1");
            assert_eq!(record.name, "Alice");
            assert_eq!(record.admission, AdmissionType::Normal);
            assert_eq!(total_after, 1);
        }
        other => panic!("expected acceptance, got {:?}", other),
    }
    match c.evaluate(&mut led, "A1") {
        AdmissionOutcome::DuplicateRejected { id, name, total_so_far } => {
            assert_eq!(id, "A1");
            assert_eq!(name, "Alice");
            assert_eq!(total_so_far, 1);
        }
        other => panic!("expected a duplicate rejection, got {:?}", other),
    }
    let matching: Vec<&String> =
        led.lines.iter().skip(1).filter(|l| l.starts_with("A1,")).collect();
    assert_eq!(matching.len(), 1);
}

#[test]
fn case_variants_resolve_to_same_ledger_entry() {
    let c = controller(&[("A1", "Alice")], "!");
    let mut first = initialized_ledger();
    let mut second = initialized_ledger();
    c.evaluate(&mut first, "a1");
    c.evaluate(&mut second, "A1");
    assert_eq!(first.lines, second.lines);
    assert_eq!(first.lines.last().unwrap().as_str(), "A1,Alice,normal");
}

#[test]
fn unknown_id_is_rejected_without_mutation() {
    let c = controller(&[("B2", "Bob")], "!");
    let mut led = initialized_ledger();
    let before = led.lines.clone();
    match c.evaluate(&mut led, "Z9") {
        AdmissionOutcome::InvalidRejected { id, total_so_far } => {
            assert_eq!(id, "Z9");
            assert_eq!(total_so_far, 0);
        }
        other => panic!("expected an invalid rejection, got {:?}", other),
    }
    assert_eq!(led.lines, before);
}

#[test]
fn bypass_admits_id_absent_from_roster() {
    let c = controller(&[("B2", "Bob")], "!");
    let mut led = initialized_ledger();
    match c.evaluate(&mut led, "!X1") {
        AdmissionOutcome::Accepted { record, .. } => {
            assert_eq!(record.id, "X1");
            assert_eq!(record.name, "");
            assert_eq!(record.admission, AdmissionType::Bypass);
        }
        other => panic!("expected acceptance, got {:?}", other),
    }
    match c.evaluate(&mut led, "!X1") {
        AdmissionOutcome::DuplicateRejected { id, .. } => assert_eq!(id, "X1"),
        other => panic!("expected a duplicate rejection, got {:?}", other),
    }
}

#[test]
fn bypass_marker_takes_precedence_over_roster() {
    let c = controller(&[("X1", "Xavier")], "!");
    let mut led = initialized_ledger();
    match c.evaluate(&mut led, "!x1") {
        AdmissionOutcome::Accepted { record, .. } => {
            assert_eq!(record.id, "X1");
            assert_eq!(record.name, "");
            assert_eq!(record.admission, AdmissionType::Bypass);
        }
        other => panic!("expected acceptance, got {:?}", other),
    }
}

#[test]
fn multi_character_marker_is_stripped() {
    let c = controller(&[], "ALLOW");
    let mut led = initialized_ledger();
    match c.evaluate(&mut led, "allowQ7") {
        AdmissionOutcome::Accepted { record, .. } => {
            assert_eq!(record.id, "Q7");
            assert_eq!(record.admission, AdmissionType::Bypass);
        }
        other => panic!("expected acceptance, got {:?}", other),
    }
}

#[test]
fn empty_and_blank_input_are_turned_away() {
    let c = controller(&[("A1", "Alice")], "!");
    let mut led = initialized_ledger();
    let before = led.lines.clone();
    assert!(matches!(c.evaluate(&mut led, ""), AdmissionOutcome::EmptyInput));
    assert!(matches!(c.evaluate(&mut led, "  \t "), AdmissionOutcome::EmptyInput));
    assert_eq!(led.lines, before);
}

#[test]
fn input_is_trimmed_before_lookup() {
    let c = controller(&[("A1", "Alice")], "!");
    let mut led = initialized_ledger();
    match c.evaluate(&mut led, "  a1\t") {
        AdmissionOutcome::Accepted { record, .. } => assert_eq!(record.id, "A1"),
        other => panic!("expected acceptance, got {:?}", other),
    }
}

#[test]
fn accepted_record_survives_restart() {
    let c = controller(&[("C3", "Cora")], "!");
    let mut led = initialized_ledger();
    match c.evaluate(&mut led, "c3") {
        AdmissionOutcome::Accepted { .. } => {}
        other => panic!("expected acceptance, got {:?}", other),
    }
    let on_disk = led.lines.clone();
    drop(led);
    let fresh = Ledger::new(on_disk);
    assert!(fresh.contains("C3"));
    assert!(fresh.contains("c3"));
    assert_eq!(fresh.count(), 1);
    let c2 = controller(&[("C3", "Cora")], "!");
    let mut fresh = fresh;
    assert!(matches!(
        c2.evaluate(&mut fresh, "C3"),
        AdmissionOutcome::DuplicateRejected { .. }
    ));
}

#[test]
fn accepted_record_reappears_exactly_once_on_reread() {
    let c = controller(&[("A1", "Alice")], "!");
    let mut led = initialized_ledger();
    let accepted = match c.evaluate(&mut led, "a1") {
        AdmissionOutcome::Accepted { record, .. } => record,
        other => panic!("expected acceptance, got {:?}", other),
    };
    c.evaluate(&mut led, "!Z5");
    let reread = led.lines.clone();
    let mut occurrences = 0;
    for line in reread.iter().skip(1) {
        if let Some(rec) = checkin_ledger::records::parse_record(line) {
            if rec.id == accepted.id {
                assert_eq!(rec.name, accepted.name);
                assert_eq!(rec.admission, accepted.admission);
                occurrences += 1;
            }
        }
    }
    assert_eq!(occurrences, 1);
}

#[test]
fn totals_count_data_rows_only() {
    let c = controller(&[("A1", "Alice"), ("B2", "Bob")], "!");
    let mut led = initialized_ledger();
    assert_eq!(led.count(), 0);
    c.evaluate(&mut led, "A1");
    assert_eq!(led.count(), 1);
    c.evaluate(&mut led, "B2");
    assert_eq!(led.count(), 2);
    match c.evaluate(&mut led, "nobody") {
        AdmissionOutcome::InvalidRejected { total_so_far, .. } => assert_eq!(total_so_far, 2),
        other => panic!("expected an invalid rejection, got {:?}", other),
    }
}
