use libro::entry::{AuditEntry, EventSeverity};
use libro::error::LibroError;
use libro::verify::{verify_chain, verify_chain_offset};

#[test]
fn verify_valid_chain() {
    let e1 = AuditEntry::new(EventSeverity::Info, "s", "a", "{}", "");
    let e2 = AuditEntry::new(EventSeverity::Info, "s", "b", "{}", &e1.hash);
    assert!(verify_chain(&[e1, e2]).is_ok());
}

#[test]
fn verify_broken_link() {
    let e1 = AuditEntry::new(EventSeverity::Info, "s", "a", "{}", "");
    let e2 = AuditEntry::new(EventSeverity::Info, "s", "b", "{}", "wrong");
    assert!(verify_chain(&[e1, e2]).is_err());
}

#[test]
fn verify_empty() {
    assert!(verify_chain(&[]).is_ok());
}

#[test]
fn broken_link_reports_index_and_hashes() {
    let e1 = AuditEntry::new(EventSeverity::Info, "s", "a", "{}", "");
    let e2 = AuditEntry::new(EventSeverity::Info, "s", "b", "{}", "wrong");
    match verify_chain(&[e1.clone(), e2]) {
        Err(LibroError::IntegrityViolation { index, expected, actual }) => {
            assert_eq!(index, 1);
            assert_eq!(expected, e1.hash);
            assert_eq!(actual, "wrong");
        }
        other => panic!("unexpected result: {other:?}"),
    }
}

#[test]
fn tampered_content_reports_recomputed_hash() {
    let mut e1 = AuditEntry::new(EventSeverity::Info, "s", "a", "{}", "");
    let stored = e1.hash.clone();
    e1.source = "other".into();
    let recomputed = e1.compute_hash();
    match verify_chain(&[e1]) {
        Err(LibroError::IntegrityViolation { index, expected, actual }) => {
            assert_eq!(index, 0);
            assert_eq!(expected, recomputed);
            assert_eq!(actual, stored);
        }
        other => panic!("unexpected result: {other:?}"),
    }
}

#[test]
fn offset_shifts_reported_index() {
    let e1 = AuditEntry::new(EventSeverity::Info, "s", "a", "{}", "");
    let e2 = AuditEntry::new(EventSeverity::Info, "s", "b", "{}", "wrong");
    match verify_chain_offset(&[e1, e2], 10) {
        Err(LibroError::IntegrityViolation { index, .. }) => assert_eq!(index, 11),
        other => panic!("unexpected result: {other:?}"),
    }
}

#[test]
fn error_display() {
    let err = LibroError::IntegrityViolation { index: 5, expected: "abc".into(), actual: "xyz".into() };
    assert!(err.message().contains("5"));
    assert!(err.message().contains("abc"));
    assert_eq!(err.message(), "chain integrity violated at entry 5: expected hash abc, got xyz");
}

#[test]
fn error_variants_display() {
    let store_err = LibroError::Store("connection failed".into());
    assert!(store_err.message().contains("connection failed"));

    let io_err = LibroError::Io(std::io::Error::new(std::io::ErrorKind::NotFound, "missing"));
    assert!(io_err.message().contains("missing"));

    let json_err: Result<serde_json::Value, serde_json::Error> = serde_json::from_str("{bad}");
    let json_err = json_err.map_err(LibroError::Json);
    assert!(json_err.is_err());
}

#[test]
fn field_too_long_message() {
    let e = LibroError::FieldTooLong { field: "source", len: 300, max: 256 };
    assert_eq!(e.message(), "field `source` too long: 300 bytes (max 256)");
}

#[test]
fn resealed_replacement_breaks_next_link() {
    let e1 = AuditEntry::new(EventSeverity::Info, "s", "a", "{}", "");
    let e2 = AuditEntry::new(EventSeverity::Info, "s", "b", "{}", &e1.hash);
    let e3 = AuditEntry::new(EventSeverity::Info, "s", "c", "{}", &e2.hash);
    assert!(verify_chain(&[e1.clone(), e2.clone(), e3.clone()]).is_ok());
    // A forged middle entry that is itself properly sealed.
    let forged = AuditEntry::new(EventSeverity::Critical, "s", "b", "{}", &e1.hash);
    assert!(forged.verify());
    assert_ne!(forged.hash, e2.hash);
    match verify_chain(&[e1, forged.clone(), e3.clone()]) {
        Err(LibroError::IntegrityViolation { index, expected, actual }) => {
            assert_eq!(index, 2);
            assert_eq!(expected, forged.hash);
            assert_eq!(actual, e3.prev_hash);
        }
        other => panic!("unexpected: {other:?}"),
    }
}

#[test]
fn deleted_inner_entry_is_detected() {
    let e1 = AuditEntry::new(EventSeverity::Info, "s", "a", "{}", "");
    let e2 = AuditEntry::new(EventSeverity::Info, "s", "b", "{}", &e1.hash);
    let e3 = AuditEntry::new(EventSeverity::Info, "s", "c", "{}", &e2.hash);
    match verify_chain(&[e1.clone(), e3.clone()]) {
        Err(LibroError::IntegrityViolation { index, expected, actual }) => {
            assert_eq!(index, 1);
            assert_eq!(expected, e1.hash);
            assert_eq!(actual, e2.hash);
        }
        other => panic!("unexpected: {other:?}"),
    }
}
