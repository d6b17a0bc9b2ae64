use rust_pure_demo::form::ParseFailure;
use rust_pure_demo::text::char_is_whitespace;
use rust_pure_demo::form::{read_timestamp_input, upsert_entry, AppendForm, FormError};
use rust_pure_demo::text::is_blank;
use rust_pure_demo::{Keypair, Ledger, LedgerEntry};

fn form(payload: &str, secret: &str, timestamp: &str) -> AppendForm {
    AppendForm {
        payload_input: payload.to_string(),
        secret_input: secret.to_string(),
        timestamp_input: timestamp.to_string(),
    }
}

fn entry(index: u64, payload: &str) -> LedgerEntry {
    LedgerEntry {
        index,
        timestamp: 0,
        payload: payload.to_string(),
        prev_hash: String::new(),
        hash: String::new(),
        public_key: String::new(),
        signature: String::new(),
    }
}

#[test]
fn blank_texts() {
    assert!(is_blank(""));
    assert!(is_blank(" \t\r\n"));
    assert!(is_blank("\u{3000}\u{a0}"));
    assert!(!is_blank(" x "));
    assert!(!is_blank("\u{200b}"));
}

#[test]
fn timestamp_inputs() {
    assert_eq!(read_timestamp_input("  ").unwrap(), None);
    assert_eq!(read_timestamp_input(" 42 ").unwrap(), Some(42));
    assert_eq!(read_timestamp_input("+7").unwrap(), Some(7));
    assert_eq!(read_timestamp_input("18446744073709551615").unwrap(), Some(u64::MAX));
    assert!(read_timestamp_input("18446744073709551616").is_err());
    assert!(read_timestamp_input("-1").is_err());
    assert!(read_timestamp_input("+").is_err());
    assert!(read_timestamp_input("1 2").is_err());
}

#[test]
fn form_checks_in_order() {
    assert!(matches!(form(" ", "", "x").check(), Err(FormError::EmptyPayload)));
    assert!(matches!(form("p", "\t", "x").check(), Err(FormError::MissingSecret)));
    assert!(matches!(form("p", "s", "x").check(), Err(FormError::InvalidTimestamp(_))));
    assert_eq!(form("p", "s", "").check().unwrap(), None);
    assert_eq!(form("p", "s", " 12").check().unwrap(), Some(12));
}

#[test]
fn form_clears_after_append() {
    let mut f = form("p", "secret", "12");
    f.clear_after_append();
    assert_eq!(f.payload_input, "");
    assert_eq!(f.timestamp_input, "");
    assert_eq!(f.secret_input, "secret");
}

#[test]
fn upsert_replaces_or_pushes() {
    let mut shown = vec![entry(0, "a"), entry(1, "b")];
    upsert_entry(&mut shown, entry(1, "c"));
    assert_eq!(shown.len(), 2);
    assert_eq!(shown[1].payload, "c");
    upsert_entry(&mut shown, entry(2, "d"));
    assert_eq!(shown.len(), 3);
    assert_eq!(shown[2].payload, "d");
    assert_eq!(shown[0].payload, "a");
}

#[test]
fn form_submission_flow() {
    let keypair = Keypair::generate();
    let mut f = form("hello", &keypair.secret_key, "5");
    let timestamp = f.check().unwrap().unwrap();
    let mut ledger = Ledger::new();
    let request = ledger
        .prepare_append(f.payload_input.clone(), &f.secret_input, timestamp)
        .unwrap();
    let appended = ledger.append(request).unwrap().clone();
    let mut shown = Vec::new();
    upsert_entry(&mut shown, appended.clone());
    f.clear_after_append();
    assert_eq!(appended.index, 0);
    assert_eq!(shown.len(), 1);
    assert_eq!(f.payload_input, "");
}

#[test]
fn append_to_composes_the_submission() {
    let keypair = Keypair::generate();
    let mut f = form("hello", &keypair.secret_key, "5");
    let timestamp = f.check().unwrap().unwrap();
    let mut ledger = Ledger::new();
    let mut shown = vec![entry(0, "stale")];
    let index = f.append_to(&mut ledger, &mut shown, timestamp).unwrap();
    assert_eq!(index, 0);
    assert_eq!(ledger.entries().len(), 1);
    assert_eq!(shown.len(), 1);
    assert_eq!(shown[0].payload, "hello");
    assert_eq!(shown[0].hash, ledger.entries()[0].hash);
    assert_eq!(f.payload_input, "");
    assert_eq!(f.timestamp_input, "");
    assert_eq!(f.secret_input, keypair.secret_key);
}

#[test]
fn append_to_refused_changes_nothing() {
    let keypair = Keypair::generate();
    let mut ledger = Ledger::new();
    let mut shown = Vec::new();
    let mut first = form("a", &keypair.secret_key, "");
    first.append_to(&mut ledger, &mut shown, 10).unwrap();
    let mut late = form("b", &keypair.secret_key, "3");
    assert!(matches!(
        late.append_to(&mut ledger, &mut shown, 3),
        Err(rust_pure_demo::LedgerError::TimestampRegression { previous: 10, candidate: 3 })
    ));
    assert_eq!(ledger.entries().len(), 1);
    assert_eq!(shown.len(), 1);
    assert_eq!(late.payload_input, "b");
    let mut bad = form("c", "not a key", "");
    assert!(matches!(
        bad.append_to(&mut ledger, &mut shown, 20),
        Err(rust_pure_demo::LedgerError::Base64Decode(_))
    ));
}

#[test]
fn whitespace_matches_std() {
    for v in 0u32..0x3100 {
        if let Some(c) = char::from_u32(v) {
            assert_eq!(char_is_whitespace(c), c.is_whitespace(), "code point {:x}", v);
        }
    }
    assert!(!char_is_whitespace('\u{feff}'));
    assert!(!char_is_whitespace('\u{10ffff}'));
}

#[test]
fn timestamp_failure_kinds() {
    assert_eq!(read_timestamp_input(" +").unwrap_err(), ParseFailure::InvalidDigit);
    assert_eq!(read_timestamp_input("12a").unwrap_err(), ParseFailure::InvalidDigit);
    assert_eq!(read_timestamp_input("-3").unwrap_err(), ParseFailure::InvalidDigit);
    assert_eq!(
        read_timestamp_input("99999999999999999999").unwrap_err(),
        ParseFailure::PosOverflow
    );
    assert!(matches!(
        form("p", "s", "x").check(),
        Err(FormError::InvalidTimestamp(ParseFailure::InvalidDigit))
    ));
}
