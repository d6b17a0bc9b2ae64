use rust_pure_demo::encoding::Base64Failure;
use base64::Engine as _;
use rust_pure_demo::ledger::{compute_hash, signing_bytes, verify_signature, LineError};
use rust_pure_demo::{AppendRequest, Keypair, Ledger, LedgerEntry, LedgerError};

const RFC_SECRET: &str = "nWGxne/9WmC6hEr0kuwsxERJxWl7MmkZcDusAxyuf2A=";
const RFC_PUBLIC: &str = "11qYAYKxCrfVS/7TyWQHOg7hcvPapiMlrwIaaPcHURo=";
const RFC_EMPTY_SIGNATURE: &str =
    "5VZDAMNgrHKQhuLMgG6CioSHfx645dl02HPgZSJJAVVfuIIVkKM7rMYeOXAc+bRr0lv18FlbviRlUUFDjnoQCw==";

fn signed_ledger(payloads: &[&str]) -> (Ledger, Keypair) {
    let keypair = Keypair::generate();
    let mut ledger = Ledger::new();
    for (i, payload) in payloads.iter().enumerate() {
        let request = ledger
            .prepare_append(payload.to_string(), &keypair.secret_key, 10 + i as u64)
            .expect("prepare append");
        ledger.append(request).expect("append succeeds");
    }
    (ledger, keypair)
}

#[test]
fn append_and_reload_roundtrip() {
    let keypair = Keypair::generate();
    let mut ledger = Ledger::new();
    let payload = "hello world".to_string();
    let timestamp = 1;
    let request = ledger
        .prepare_append(payload.clone(), &keypair.secret_key, timestamp)
        .expect("prepare append");
    ledger.append(request).expect("append succeeds");

    let stored: Vec<LedgerEntry> = ledger.entries().to_vec();
    drop(ledger);

    let ledger = Ledger::from_entries(stored).expect("reopen ledger");
    assert_eq!(ledger.entries().len(), 1);
    assert_eq!(ledger.entries()[0].payload, payload);
}

#[test]
fn entries_link_by_index_and_hash() {
    let (ledger, keypair) = signed_ledger(&["a", "b", "c"]);
    let entries = ledger.entries();
    assert_eq!(entries.len(), 3);
    assert_eq!(entries[0].prev_hash, "GENESIS");
    for (i, entry) in entries.iter().enumerate() {
        assert_eq!(entry.index, i as u64);
        assert_eq!(entry.public_key, keypair.public_key);
        assert_eq!(entry.hash.len(), 64);
        if i > 0 {
            assert_eq!(entry.prev_hash, entries[i - 1].hash);
        }
    }
}

#[test]
fn append_returns_the_stored_entry() {
    let keypair = Keypair::generate();
    let mut ledger = Ledger::new();
    let request = ledger.prepare_append("x".to_string(), &keypair.secret_key, 7).unwrap();
    let signature = request.signature.clone();
    let entry = ledger.append(request).unwrap().clone();
    assert_eq!(entry.index, 0);
    assert_eq!(entry.timestamp, 7);
    assert_eq!(entry.payload, "x");
    assert_eq!(entry.signature, signature);
    let expected = compute_hash(0, 7, "x", "GENESIS", &entry.public_key, &entry.signature);
    assert_eq!(entry.hash, expected);
    assert_eq!(ledger.entries()[0].hash, entry.hash);
}

#[test]
fn timestamp_regression_is_refused_and_ledger_unchanged() {
    let (mut ledger, keypair) = signed_ledger(&["a"]);
    let request = ledger.prepare_append("b".to_string(), &keypair.secret_key, 3).unwrap();
    match ledger.append(request) {
        Err(LedgerError::TimestampRegression { previous, candidate }) => {
            assert_eq!(previous, 10);
            assert_eq!(candidate, 3);
        }
        other => panic!("unexpected result: {:?}", other),
    }
    assert_eq!(ledger.entries().len(), 1);
}

#[test]
fn equal_timestamp_is_accepted() {
    let (mut ledger, keypair) = signed_ledger(&["a"]);
    let request = ledger.prepare_append("b".to_string(), &keypair.secret_key, 10).unwrap();
    assert!(ledger.append(request).is_ok());
    assert_eq!(ledger.entries().len(), 2);
}

#[test]
fn request_for_another_position_is_refused() {
    let (mut ledger, keypair) = signed_ledger(&["a"]);
    let stale = Ledger::new()
        .prepare_append("b".to_string(), &keypair.secret_key, 20)
        .unwrap();
    assert!(matches!(ledger.append(stale), Err(LedgerError::SignatureVerificationFailed)));
    assert_eq!(ledger.entries().len(), 1);
}

#[test]
fn tampered_payload_is_refused_on_append() {
    let (mut ledger, keypair) = signed_ledger(&[]);
    let mut request = ledger.prepare_append("pay 1".to_string(), &keypair.secret_key, 1).unwrap();
    request.payload = "pay 100".to_string();
    assert!(matches!(ledger.append(request), Err(LedgerError::SignatureVerificationFailed)));
    assert!(ledger.entries().is_empty());
}

#[test]
fn tampered_hash_is_detected_on_reload() {
    let (ledger, _) = signed_ledger(&["a", "b"]);
    let mut stored = ledger.entries().to_vec();
    let genuine = stored[1].hash.clone();
    stored[1].hash = "00".repeat(32);
    match Ledger::from_entries(stored) {
        Err(LedgerError::HashMismatch { expected, found }) => {
            assert_eq!(expected, genuine);
            assert_eq!(found, "00".repeat(32));
        }
        other => panic!("unexpected result: {:?}", other),
    }
}

#[test]
fn tampered_prev_hash_is_detected_on_reload() {
    let (ledger, _) = signed_ledger(&["a", "b"]);
    let mut stored = ledger.entries().to_vec();
    stored[1].prev_hash = "GENESIS".to_string();
    match Ledger::from_entries(stored) {
        Err(LedgerError::PrevHashMismatch { expected, found }) => {
            assert_eq!(expected, ledger.entries()[0].hash);
            assert_eq!(found, "GENESIS");
        }
        other => panic!("unexpected result: {:?}", other),
    }
}

#[test]
fn tampered_payload_is_detected_on_reload() {
    let (ledger, _) = signed_ledger(&["a", "b"]);
    let mut stored = ledger.entries().to_vec();
    stored[0].payload = "z".to_string();
    assert!(matches!(
        Ledger::from_entries(stored),
        Err(LedgerError::SignatureVerificationFailed)
    ));
}

#[test]
fn removed_entry_is_detected_on_reload() {
    let (ledger, _) = signed_ledger(&["a", "b", "c"]);
    let mut stored = ledger.entries().to_vec();
    stored.remove(1);
    match Ledger::from_entries(stored) {
        Err(LedgerError::IndexMismatch { expected, found }) => {
            assert_eq!(expected, 1);
            assert_eq!(found, 2);
        }
        other => panic!("unexpected result: {:?}", other),
    }
}

#[test]
fn load_entry_accepts_the_next_entry_only() {
    let (ledger, _) = signed_ledger(&["a", "b"]);
    let stored = ledger.entries().to_vec();
    let mut reloaded = Ledger::new();
    assert!(matches!(
        reloaded.load_entry(stored[1].clone()),
        Err(LedgerError::IndexMismatch { expected: 0, found: 1 })
    ));
    assert!(reloaded.entries().is_empty());
    reloaded.load_entry(stored[0].clone()).unwrap();
    reloaded.load_entry(stored[1].clone()).unwrap();
    assert_eq!(reloaded.entries().len(), 2);
    assert_eq!(reloaded.entries()[1].hash, stored[1].hash);
}

#[test]
fn validate_entry_checks_against_the_last_entry() {
    let (ledger, _) = signed_ledger(&["a", "b"]);
    let stored = ledger.entries();
    assert!(Ledger::validate_entry(&stored[..1], &stored[1]).is_ok());
    assert!(Ledger::validate_entry(&[], &stored[0]).is_ok());
    assert!(matches!(
        Ledger::validate_entry(&[], &stored[1]),
        Err(LedgerError::IndexMismatch { expected: 0, found: 1 })
    ));
}

#[test]
fn signable_content_names_the_next_position() {
    let (ledger, _) = signed_ledger(&["a"]);
    let content = ledger.signable_content("next".to_string(), 99);
    assert_eq!(content.index, 1);
    assert_eq!(content.prev_hash, ledger.entries()[0].hash);
    assert_eq!(content.timestamp, 99);
    assert_eq!(content.payload, "next");
    let empty = Ledger::new().signable_content("p".to_string(), 5);
    assert_eq!(empty.index, 0);
    assert_eq!(empty.prev_hash, "GENESIS");
}

#[test]
fn signable_message_layout() {
    let empty = Ledger::new().signable_content("c".to_string(), 2);
    let mut expected = vec![0u8; 8];
    expected.extend_from_slice(&[0, 0, 0, 0, 0, 0, 0, 2]);
    expected.extend_from_slice(b"GENESIS");
    expected.extend_from_slice(b"c");
    assert_eq!(empty.message(), expected);
}

#[test]
fn signing_bytes_are_big_endian() {
    let bytes = signing_bytes(0x0102030405060708, 1, "ab", b"c\xff");
    assert_eq!(
        bytes,
        vec![1, 2, 3, 4, 5, 6, 7, 8, 0, 0, 0, 0, 0, 0, 0, 1, b'a', b'b', b'c', 0xff]
    );
}

#[test]
fn compute_hash_known_value() {
    assert_eq!(
        compute_hash(0, 5, "hi", "GENESIS", "PK", "SIG"),
        "c984afcf5f3df4d675f4f658b409d9242d68d225c731acfd0859178c2b2f0dc3"
    );
}

#[test]
fn keypair_from_known_secret() {
    let keypair = Keypair::from_secret(RFC_SECRET).unwrap();
    assert_eq!(keypair.public_key, RFC_PUBLIC);
    assert_eq!(keypair.secret_key, RFC_SECRET);
    assert!(keypair.signing_key().is_ok());
}

#[test]
fn keypair_from_generated_secret_roundtrips() {
    let keypair = Keypair::generate();
    assert_eq!(Keypair::from_secret(&keypair.secret_key).unwrap(), keypair);
    assert_eq!(keypair.secret_key.len(), 44);
    assert_eq!(keypair.public_key.len(), 44);
}

#[test]
fn keypair_from_bad_secrets() {
    assert!(matches!(
        Keypair::from_secret("not base64!"),
        Err(LedgerError::Base64Decode(_))
    ));
    assert!(matches!(
        Keypair::from_secret("AAAA"),
        Err(LedgerError::InvalidSecretKeyLength(3))
    ));
    let keypair = Keypair { public_key: String::new(), secret_key: "AAAA".to_string() };
    assert!(matches!(keypair.signing_key(), Err(LedgerError::InvalidSecretKeyLength(3))));
}

#[test]
fn prepare_append_with_bad_secret() {
    let ledger = Ledger::new();
    assert!(matches!(
        ledger.prepare_append("p".to_string(), "@@@@", 1),
        Err(LedgerError::Base64Decode(_))
    ));
    assert!(matches!(
        ledger.prepare_append("p".to_string(), "AAAAAA==", 1),
        Err(LedgerError::InvalidSecretKeyLength(4))
    ));
}

#[test]
fn prepare_append_uses_the_secrets_public_key() {
    let ledger = Ledger::new();
    let request = ledger.prepare_append("p".to_string(), RFC_SECRET, 4).unwrap();
    assert_eq!(request.public_key, RFC_PUBLIC);
    assert_eq!(request.payload, "p");
    assert_eq!(request.timestamp, 4);
    assert_eq!(request.signature.len(), 88);
}

#[test]
fn verify_known_signature() {
    assert!(verify_signature(b"", RFC_PUBLIC, RFC_EMPTY_SIGNATURE).is_ok());
    assert!(matches!(
        verify_signature(b"x", RFC_PUBLIC, RFC_EMPTY_SIGNATURE),
        Err(LedgerError::SignatureVerificationFailed)
    ));
}

#[test]
fn verify_signature_error_order() {
    assert!(matches!(
        verify_signature(b"", "%", RFC_EMPTY_SIGNATURE),
        Err(LedgerError::Base64Decode(_))
    ));
    assert!(matches!(
        verify_signature(b"", "AAAA", RFC_EMPTY_SIGNATURE),
        Err(LedgerError::InvalidPublicKeyLength(3))
    ));
    assert!(matches!(
        verify_signature(b"", RFC_PUBLIC, "%"),
        Err(LedgerError::Base64Decode(_))
    ));
    assert!(matches!(
        verify_signature(b"", RFC_PUBLIC, RFC_PUBLIC),
        Err(LedgerError::InvalidSignatureLength(32))
    ));
}

#[test]
fn verify_signature_rejects_off_curve_key() {
    let mut rejected = None;
    for y in 2u8..=255 {
        let mut bytes = [0u8; 32];
        bytes[0] = y;
        if ed25519_dalek::VerifyingKey::from_bytes(&bytes).is_err() {
            rejected = Some(bytes);
            break;
        }
    }
    let bytes = rejected.expect("some small y is off the curve");
    let text = base64::engine::general_purpose::STANDARD.encode(bytes);
    assert!(matches!(
        verify_signature(b"", &text, RFC_EMPTY_SIGNATURE),
        Err(LedgerError::InvalidPublicKey)
    ));
}

#[test]
fn append_with_forged_request_fields() {
    let mut ledger = Ledger::new();
    let request = AppendRequest {
        payload: "p".to_string(),
        public_key: RFC_PUBLIC.to_string(),
        signature: RFC_EMPTY_SIGNATURE.to_string(),
        timestamp: 0,
    };
    assert!(matches!(ledger.append(request), Err(LedgerError::SignatureVerificationFailed)));
    let request = AppendRequest {
        payload: "p".to_string(),
        public_key: "AAAA".to_string(),
        signature: RFC_EMPTY_SIGNATURE.to_string(),
        timestamp: 0,
    };
    assert!(matches!(ledger.append(request), Err(LedgerError::InvalidPublicKeyLength(3))));
    assert!(ledger.entries().is_empty());
}

#[test]
fn reload_of_empty_ledger() {
    let ledger = Ledger::from_entries(Vec::new()).unwrap();
    assert!(ledger.entries().is_empty());
}

#[test]
fn signing_key_holds_the_decoded_secret() {
    let keypair = Keypair::generate();
    let key = keypair.signing_key().unwrap();
    let secret = base64::engine::general_purpose::STANDARD.decode(&keypair.secret_key).unwrap();
    assert_eq!(key.to_bytes().to_vec(), secret);
    let public = base64::engine::general_purpose::STANDARD.encode(key.verifying_key().to_bytes());
    assert_eq!(public, keypair.public_key);
    let known = rust_pure_demo::ledger::decode_signing_key(RFC_SECRET).unwrap();
    assert_eq!(
        base64::engine::general_purpose::STANDARD.encode(known.verifying_key().to_bytes()),
        RFC_PUBLIC
    );
}

#[test]
fn entry_hashes_are_lower_hex() {
    let (ledger, _) = signed_ledger(&["a", "b"]);
    for entry in ledger.entries() {
        assert_eq!(entry.hash.len(), 64);
        assert!(entry.hash.chars().all(|c| c.is_ascii_digit() || ('a'..='f').contains(&c)));
    }
}

fn parse_line(text: &str) -> Result<LedgerEntry, String> {
    let fields: Vec<&str> = text.split('|').collect();
    if fields.len() != 7 {
        return Err(format!("bad line {}", text));
    }
    Ok(LedgerEntry {
        index: fields[0].parse().map_err(|_| "index".to_string())?,
        timestamp: fields[1].parse().map_err(|_| "timestamp".to_string())?,
        payload: fields[2].to_string(),
        prev_hash: fields[3].to_string(),
        hash: fields[4].to_string(),
        public_key: fields[5].to_string(),
        signature: fields[6].to_string(),
    })
}

fn line_of(e: &LedgerEntry) -> String {
    format!(
        "{}|{}|{}|{}|{}|{}|{}",
        e.index, e.timestamp, e.payload, e.prev_hash, e.hash, e.public_key, e.signature
    )
}

#[test]
fn load_line_skips_blank_lines_and_stops_on_bad_ones() {
    let (ledger, _) = signed_ledger(&["a", "b"]);
    let stored = ledger.entries();
    let mut reloaded = Ledger::new();
    for line in ["", "  \t", &line_of(&stored[0]), " ", &line_of(&stored[1])] {
        reloaded.load_line(line, parse_line).unwrap();
    }
    assert_eq!(reloaded.entries().len(), 2);
    assert_eq!(reloaded.entries()[1].hash, stored[1].hash);

    let mut other = Ledger::new();
    assert!(matches!(other.load_line("garbage", parse_line), Err(LineError::Parse(_))));
    assert!(matches!(
        other.load_line(&line_of(&stored[1]), parse_line),
        Err(LineError::Ledger(LedgerError::IndexMismatch { expected: 0, found: 1 }))
    ));
    assert!(other.entries().is_empty());
}

#[test]
fn base64_failures_are_reported_exactly() {
    match Keypair::from_secret("not base64!") {
        Err(LedgerError::Base64Decode(Base64Failure::InvalidByte(3, b' '))) => {}
        other => panic!("unexpected result: {:?}", other),
    }
    assert!(matches!(
        Keypair::from_secret("AAAAA"),
        Err(LedgerError::Base64Decode(Base64Failure::InvalidLength(5)))
    ));
    assert!(matches!(
        Keypair::from_secret("AB=="),
        Err(LedgerError::Base64Decode(Base64Failure::InvalidLastSymbol(1, b'B')))
    ));
    assert!(matches!(
        Keypair::from_secret("AA"),
        Err(LedgerError::Base64Decode(Base64Failure::InvalidPadding))
    ));
}

#[test]
fn next_entry_leaves_the_ledger_unchanged() {
    let (mut ledger, keypair) = signed_ledger(&["a"]);
    let request = ledger.prepare_append("b".to_string(), &keypair.secret_key, 30).unwrap();
    let entry = ledger.next_entry(request.clone()).unwrap();
    assert_eq!(ledger.entries().len(), 1);
    assert_eq!(entry.index, 1);
    assert_eq!(entry.prev_hash, ledger.entries()[0].hash);
    let appended = ledger.append(request).unwrap().clone();
    assert_eq!(appended.hash, entry.hash);
    let late = ledger.prepare_append("c".to_string(), &keypair.secret_key, 1).unwrap();
    assert!(matches!(
        ledger.next_entry(late),
        Err(LedgerError::TimestampRegression { previous: 30, candidate: 1 })
    ));
}
