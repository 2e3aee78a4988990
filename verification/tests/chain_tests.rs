use libro::chain::AuditChain;
use libro::entry::{AuditEntry, EventSeverity};
use libro::query::QueryFilter;
use libro::verify::verify_chain;

#[test]
fn chain_append_and_verify() {
    let mut chain = AuditChain::new();
    chain.append(EventSeverity::Info, "daimon", "agent.start", "{}");
    chain.append(EventSeverity::Info, "daimon", "agent.stop", "{}");
    assert_eq!(chain.len(), 2);
    assert!(chain.verify().is_ok());
}

#[test]
fn chain_detects_tamper() {
    let mut chain = AuditChain::new();
    chain.append(EventSeverity::Info, "src", "act", "{}");
    chain.append(EventSeverity::Info, "src", "act2", "{}");
    let mut entries = chain.entries().to_vec();
    entries[0].action = "hacked".into();
    let chain = AuditChain::from_entries(entries);
    assert!(chain.verify().is_err());
}

#[test]
fn chain_query() {
    let mut chain = AuditChain::new();
    chain.append(EventSeverity::Info, "daimon", "start", "{}");
    chain.append(EventSeverity::Security, "aegis", "alert", "{}");
    chain.append(EventSeverity::Info, "daimon", "stop", "{}");
    assert_eq!(chain.by_source("daimon").len(), 2);
    assert_eq!(chain.by_severity(EventSeverity::Security).len(), 1);
}

#[test]
fn empty_chain_valid() {
    let chain = AuditChain::new();
    assert!(chain.verify().is_ok());
    assert!(chain.is_empty());
}

#[test]
fn head_hash() {
    let mut chain = AuditChain::new();
    assert!(chain.head_hash().is_none());
    chain.append(EventSeverity::Info, "src", "act", "{}");
    assert!(chain.head_hash().is_some());
}

#[test]
fn rotate_archives_and_continues() {
    let mut chain = AuditChain::new();
    chain.append(EventSeverity::Info, "src", "first", "{}");
    chain.append(EventSeverity::Info, "src", "second", "{}");
    let head_before = chain.head_hash().unwrap().to_owned();

    let archive = chain.rotate();
    assert_eq!(archive.entries.len(), 2);
    assert_eq!(archive.head_hash, head_before);
    assert!(chain.is_empty());

    let entry = chain.append(EventSeverity::Info, "src", "third", "{}");
    assert_eq!(entry.prev_hash(), head_before);
    assert!(chain.verify().is_ok());
}

#[test]
fn rotate_empty_chain() {
    let mut chain = AuditChain::new();
    let archive = chain.rotate();
    assert!(archive.entries.is_empty());
    assert_eq!(archive.head_hash, "");
    assert!(chain.continued_from().is_none());
}

#[test]
fn from_entries_verifies() {
    let mut chain = AuditChain::new();
    chain.append(EventSeverity::Info, "s", "a", "{}");
    chain.append(EventSeverity::Info, "s", "b", "{}");
    let entries = chain.entries().to_vec();
    let restored = AuditChain::from_entries(entries);
    assert_eq!(restored.len(), 2);
    assert!(restored.verify().is_ok());
}

#[test]
fn multiple_rotations() {
    let mut chain = AuditChain::new();
    chain.append(EventSeverity::Info, "src", "gen1", "{}");
    let archive1 = chain.rotate();

    chain.append(EventSeverity::Info, "src", "gen2", "{}");
    assert!(chain.verify().is_ok());
    assert_eq!(chain.entries()[0].prev_hash(), archive1.head_hash);

    let archive2 = chain.rotate();
    chain.append(EventSeverity::Info, "src", "gen3", "{}");
    assert!(chain.verify().is_ok());
    assert_eq!(chain.entries()[0].prev_hash(), archive2.head_hash);
}

#[test]
fn by_agent() {
    let mut chain = AuditChain::new();
    chain.append(EventSeverity::Info, "daimon", "start", "{}");
    chain.append_with_agent(EventSeverity::Info, "daimon", "task", "{}", "agent-01");
    assert_eq!(chain.by_agent("agent-01").len(), 1);
    assert_eq!(chain.by_agent("nonexistent").len(), 0);
}

#[test]
fn query_with_filter() {
    let mut chain = AuditChain::new();
    chain.append(EventSeverity::Info, "daimon", "start", "{}");
    chain.append(EventSeverity::Security, "aegis", "alert", "{}");
    chain.append(EventSeverity::Info, "daimon", "stop", "{}");

    let results = chain.query(&QueryFilter::new().source("daimon").severity(EventSeverity::Info));
    assert_eq!(results.len(), 2);

    let results = chain.query(&QueryFilter::new().action("alert"));
    assert_eq!(results.len(), 1);
}

#[test]
fn append_batch_chains_correctly() {
    let mut chain = AuditChain::new();
    let events = vec![
        (EventSeverity::Info, "daimon".to_owned(), "start".to_owned(), "{}".to_owned()),
        (EventSeverity::Security, "aegis".to_owned(), "alert".to_owned(), "{}".to_owned()),
        (EventSeverity::Info, "daimon".to_owned(), "stop".to_owned(), "{}".to_owned()),
    ];
    let appended = chain.append_batch(events);
    assert_eq!(appended.len(), 3);
    assert_eq!(chain.len(), 3);
    assert!(chain.verify().is_ok());
}

#[test]
fn page_returns_slice() {
    let mut chain = AuditChain::new();
    for i in 0..10 {
        chain.append(EventSeverity::Info, "s", &format!("e{i}"), "{}");
    }
    assert_eq!(chain.page(0, 3).len(), 3);
    assert_eq!(chain.page(0, 3)[0].action(), "e0");
    assert_eq!(chain.page(3, 3).len(), 3);
    assert_eq!(chain.page(3, 3)[0].action(), "e3");
    assert_eq!(chain.page(8, 5).len(), 2);
    assert_eq!(chain.page(20, 5).len(), 0);
}

#[test]
fn verify_detects_bad_genesis_prev_hash() {
    let entry = AuditEntry::new(EventSeverity::Info, "s", "a", "{}", "bogus");
    let chain = AuditChain::from_entries(vec![entry]);
    let err = chain.verify().unwrap_err();
    assert!(err.message().contains("entry 0"));
}

#[test]
fn verify_detects_broken_linkage() {
    let e1 = AuditEntry::new(EventSeverity::Info, "s", "a", "{}", "");
    let e2 = AuditEntry::new(EventSeverity::Info, "s", "b", "{}", "wrong-hash");
    let chain = AuditChain::from_entries(vec![e1, e2]);
    let err = chain.verify().unwrap_err();
    assert!(err.message().contains("entry 1"));
}

#[test]
fn verify_detects_tampered_self_hash() {
    let mut chain = AuditChain::new();
    chain.append(EventSeverity::Info, "s", "a", "{}");
    chain.append(EventSeverity::Info, "s", "b", "{}");
    let mut entries = chain.entries().to_vec();
    entries[1].hash = "tampered".into();
    let chain = AuditChain::from_entries(entries);
    let err = chain.verify().unwrap_err();
    assert!(err.message().contains("entry 1"));
}

#[test]
fn append_with_agent_on_chain() {
    let mut chain = AuditChain::new();
    chain.append(EventSeverity::Info, "daimon", "start", "{}");
    let head = chain.head_hash().unwrap().to_owned();
    let entry = chain.append_with_agent(EventSeverity::Info, "daimon", "task", "{}", "agent-007");
    assert_eq!(entry.agent_id(), Some("agent-007"));
    assert_eq!(entry.prev_hash(), head);
    assert!(entry.verify());
    assert!(chain.verify().is_ok());
}

#[test]
fn full_chain_lifecycle() {
    let mut chain = AuditChain::new();
    chain.append(EventSeverity::Info, "daimon", "agent.registered", r#"{"agent":"a1"}"#);
    chain.append(EventSeverity::Security, "aegis", "policy.applied", r#"{"policy":"strict"}"#);
    chain.append(EventSeverity::Info, "daimon", "agent.deregistered", r#"{"agent":"a1"}"#);
    assert_eq!(chain.len(), 3);
    assert!(chain.verify().is_ok());
    assert!(verify_chain(chain.entries()).is_ok());
}

#[test]
fn tamper_detection() {
    let mut chain = AuditChain::new();
    chain.append(EventSeverity::Info, "src", "create", "{}");
    chain.append(EventSeverity::Info, "src", "update", "{}");
    assert!(chain.verify().is_ok());
}

#[test]
fn chain_from_entries_and_verify_roundtrip() {
    let mut chain = AuditChain::new();
    for i in 0..10 {
        chain.append(EventSeverity::Info, "src", &format!("action-{i}"), &format!(r#"{{"i":{i}}}"#));
    }
    assert!(chain.verify().is_ok());
    let entries = chain.entries().to_vec();
    let restored = AuditChain::from_entries(entries.clone());
    assert!(restored.verify().is_ok());
    assert!(verify_chain(&entries).is_ok());
}

#[test]
fn archive_entries_independently_verifiable() {
    let mut chain = AuditChain::new();
    for i in 0..5 {
        chain.append(EventSeverity::Info, "src", &format!("action-{i}"), "{}");
    }
    let archive = chain.rotate();
    assert!(verify_chain(&archive.entries).is_ok());
}

#[test]
fn all_severity_levels_through_chain() {
    let mut chain = AuditChain::new();
    let severities = [
        EventSeverity::Debug,
        EventSeverity::Info,
        EventSeverity::Warning,
        EventSeverity::Error,
        EventSeverity::Critical,
        EventSeverity::Security,
    ];
    for sev in &severities {
        chain.append(*sev, "src", sev.as_str(), "{}");
    }
    assert_eq!(chain.len(), 6);
    assert!(chain.verify().is_ok());
    for sev in &severities {
        assert_eq!(chain.by_severity(*sev).len(), 1);
    }
}

#[test]
fn verify_chain_linkage_failure_path() {
    let e1 = AuditEntry::new(EventSeverity::Info, "s", "a", "{}", "");
    let e2 = AuditEntry::new(EventSeverity::Info, "s", "b", "{}", "not-the-right-hash");
    let err = verify_chain(&[e1, e2]).unwrap_err();
    assert!(err.message().contains("entry 1"));
}

#[test]
fn chain_batch_empty_input() {
    let mut chain = AuditChain::new();
    let appended = chain.append_batch(Vec::new());
    assert!(appended.is_empty());
    assert!(chain.is_empty());
}

#[test]
fn unicode_in_entry_fields() {
    let mut chain = AuditChain::new();
    chain.append(
        EventSeverity::Info,
        "日本語ソース",
        "действие",
        r#"{"arabic":"مرحبا","emoji":"🔒"}"#,
    );
    assert!(chain.verify().is_ok());
    assert_eq!(chain.entries()[0].source(), "日本語ソース");
    assert_eq!(chain.entries()[0].action(), "действие");
}

#[test]
fn rotated_chain_rejects_unlinked_first_entry() {
    let mut chain = AuditChain::new();
    chain.append(EventSeverity::Info, "s", "a", "{}");
    let archive = chain.rotate();
    assert_eq!(chain.continued_from(), Some(archive.head_hash.as_str()));
    chain.append(EventSeverity::Info, "s", "b", "{}");
    let mut entries = chain.entries().to_vec();
    entries[0] = AuditEntry::new(EventSeverity::Info, "s", "b", "{}", "");
    let fresh = AuditChain::from_entries(entries);
    assert!(fresh.verify().is_ok());
}

#[test]
fn rotate_with_empty_head_hash_keeps_link() {
    let mut e = AuditEntry::new(EventSeverity::Info, "src", "blank", "{}", "");
    e.hash = String::new();
    let mut chain = AuditChain::from_entries(vec![e]);
    let archive = chain.rotate();
    assert_eq!(archive.entries.len(), 1);
    assert_eq!(archive.head_hash, "");
    assert!(chain.is_empty());
    assert!(chain.continued_from().is_none());
}
