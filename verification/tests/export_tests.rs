use libro::chain::AuditChain;
use libro::entry::{uuid_text, AuditEntry, EventSeverity};
use libro::export::{csv_escape, csv_text};

fn sample_entries() -> Vec<AuditEntry> {
    let e1 = AuditEntry::new(EventSeverity::Info, "daimon", "agent.start", r#"{"agent":"a1"}"#, "")
        .with_agent("agent-01");
    let e2 = AuditEntry::new(EventSeverity::Security, "aegis", "alert", r#"{"ip":"10.0.0.1"}"#, e1.hash());
    vec![e1, e2]
}

#[test]
fn csv_export() {
    let entries = sample_entries();
    let output = csv_text(&entries);
    let lines: Vec<&str> = output.trim().split('\n').collect();
    assert_eq!(lines.len(), 3);
    assert!(lines[0].starts_with("id,timestamp,severity,"));
    assert!(lines[1].contains("daimon"));
    assert!(lines[2].contains("aegis"));
}

#[test]
fn csv_escapes_special_chars() {
    let entry = AuditEntry::new(EventSeverity::Info, "source,with,commas", "action \"quoted\"", "{}", "");
    let output = csv_text(&[entry]);
    assert!(output.contains("\"source,with,commas\""));
    assert!(output.contains("\"action \"\"quoted\"\"\""));
}

#[test]
fn csv_escapes_agent_id() {
    let entry = AuditEntry::new(EventSeverity::Info, "src", "act", "{}", "").with_agent("agent,with,commas");
    let output = csv_text(&[entry]);
    assert!(output.contains("\"agent,with,commas\""));
}

#[test]
fn csv_details_with_newlines() {
    let entry = AuditEntry::new(EventSeverity::Info, "src", "act", r#"{"multi":"line\nvalue"}"#, "");
    let output = csv_text(&[entry]);
    assert!(output.contains("\"{"));
}

#[test]
fn csv_empty() {
    let output = csv_text(&[]);
    assert_eq!(output.trim().lines().count(), 1);
}

#[test]
fn csv_export_roundtrip_no_special_chars() {
    let mut chain = AuditChain::new();
    chain.append(EventSeverity::Info, "simple_source", "simple_action", r#"{"key":"value"}"#);
    let output = csv_text(chain.entries());
    assert!(output.contains("simple_source"));
    assert!(output.contains("simple_action"));
}

#[test]
fn csv_escape_rules() {
    assert_eq!(csv_escape("plain"), "plain");
    assert_eq!(csv_escape("a,b"), "\"a,b\"");
    assert_eq!(csv_escape("say \"hi\""), "\"say \"\"hi\"\"\"");
    assert_eq!(csv_escape("two\nlines"), "\"two\nlines\"");
    assert_eq!(csv_escape(""), "");
}

#[test]
fn csv_row_layout() {
    let e = AuditEntry::new(EventSeverity::Warning, "src", "act", r#"{"k":1}"#, "");
    let output = csv_text(&[e.clone()]);
    let row = output.lines().nth(1).unwrap();
    let expected = format!(
        "{},{},Warning,src,act,\"{{\"\"k\"\":1}}\",,,{}",
        uuid_text(&e.id),
        e.timestamp().to_rfc3339(),
        e.hash()
    );
    assert_eq!(row, expected);
    assert!(output.ends_with('\n'));
}
