use libro::entry::{uuid_text, AuditEntry, EventSeverity};

#[test]
fn entry_creation() {
    let entry = AuditEntry::new(
        EventSeverity::Info,
        "daimon",
        "agent.registered",
        r#"{"agent_id":"a1"}"#,
        "",
    );
    assert!(!entry.hash.is_empty());
    assert!(entry.verify());
}

#[test]
fn entry_tamper_detection() {
    let mut entry = AuditEntry::new(EventSeverity::Security, "aegis", "policy.violation", "{}", "");
    let original_hash = entry.hash.clone();
    entry.action = "tampered".into();
    assert_ne!(entry.compute_hash(), original_hash);
    assert!(!entry.verify());
}

#[test]
fn entry_chaining() {
    let e1 = AuditEntry::new(EventSeverity::Info, "src", "act", "{}", "");
    let e2 = AuditEntry::new(EventSeverity::Info, "src", "act2", "{}", &e1.hash);
    assert_eq!(e2.prev_hash, e1.hash);
    assert!(e2.verify());
}

#[test]
fn entry_with_agent() {
    let entry = AuditEntry::new(EventSeverity::Info, "src", "act", "{}", "").with_agent("agent-123");
    assert_eq!(entry.agent_id.as_deref(), Some("agent-123"));
    assert!(entry.verify());
}

#[test]
fn entry_display() {
    let entry = AuditEntry::new(EventSeverity::Security, "aegis", "alert", "{}", "").with_agent("agent-x");
    let display = entry.display_line();
    assert!(display.contains("Security"));
    assert!(display.contains("aegis/alert"));
    assert!(display.contains("agent=agent-x"));
}

#[test]
fn severity_display() {
    assert_eq!(EventSeverity::Critical.as_str(), "Critical");
}

#[test]
fn severity_names_round_trip() {
    for sev in [
        EventSeverity::Debug,
        EventSeverity::Info,
        EventSeverity::Warning,
        EventSeverity::Error,
        EventSeverity::Critical,
        EventSeverity::Security,
    ] {
        assert_eq!(EventSeverity::from_name(sev.as_str()), Some(sev));
    }
    assert_eq!(EventSeverity::from_name("Fatal"), None);
    assert_eq!(EventSeverity::from_name("info"), None);
}

#[test]
fn uuid_text_is_hyphenated_lowercase_hex() {
    let id = [
        0x12u8, 0x34, 0x56, 0x78, 0x9a, 0xbc, 0xde, 0xf0, 0x01, 0x23, 0x45, 0x67, 0x89, 0xab, 0xcd, 0xef,
    ];
    assert_eq!(uuid_text(&id), "12345678-9abc-def0-0123-456789abcdef");
}

#[test]
fn fresh_entry_ids_are_version_4() {
    let e = AuditEntry::new(EventSeverity::Info, "s", "a", "{}", "");
    assert_eq!(e.id[6] >> 4, 4);
    assert_eq!(e.id[8] >> 6, 2);
}

#[test]
fn display_line_without_agent_has_no_agent_part() {
    let e = AuditEntry::new(EventSeverity::Info, "src", "act", "{}", "");
    let line = e.display_line();
    assert!(line.starts_with('['));
    assert!(line.contains("] Info src/act hash="));
    assert!(!line.contains("agent="));
    assert!(line.ends_with("..."));
}

#[test]
fn changing_details_changes_the_hash() {
    let mut e = AuditEntry::new(EventSeverity::Info, "src", "act", r#"{"a":1}"#, "");
    assert!(e.verify());
    e.details = r#"{"a":2}"#.into();
    assert!(!e.verify());
}

#[test]
fn details_are_kept_in_compact_json_form() {
    let e = AuditEntry::new(EventSeverity::Info, "s", "a", "{ \"b\" : 1,  \"a\": [1, 2] }", "");
    assert_eq!(e.details, "{\"a\":[1,2],\"b\":1}");
    assert!(e.verify());
    let raw = AuditEntry::new(EventSeverity::Info, "s", "a", "not json", "");
    assert_eq!(raw.details, "not json");
}
