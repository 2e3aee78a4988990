use libro::chain::AuditChain;
use libro::entry::{AuditEntry, EventSeverity};
use libro::review::{abbreviate_hash, IntegrityStatus, Tally};

#[test]
fn review_empty_chain() {
    let chain = AuditChain::new();
    let review = chain.review();
    assert_eq!(review.entry_count, 0);
    assert!(matches!(review.integrity, IntegrityStatus::Empty));
    assert!(review.head_hash.is_none());
    let display = review.render();
    assert!(display.contains("EMPTY"));
}

#[test]
fn review_populated_chain() {
    let mut chain = AuditChain::new();
    chain.append(EventSeverity::Info, "daimon", "agent.start", "{}");
    chain.append(EventSeverity::Security, "aegis", "alert", "{}");
    chain.append(EventSeverity::Info, "daimon", "agent.stop", "{}");

    let review = chain.review();
    assert_eq!(review.entry_count, 3);
    assert!(matches!(review.integrity, IntegrityStatus::Valid));
    assert_eq!(review.sources.get("daimon"), Some(2));
    assert_eq!(review.sources.get("aegis"), Some(1));
    assert_eq!(review.severities.get("Info"), Some(2));
    assert_eq!(review.severities.get("Security"), Some(1));
    assert!(review.head_hash.is_some());
    assert!(review.earliest.is_some());
    assert!(review.latest.is_some());

    let display = review.render();
    assert!(display.contains("VALID"));
    assert!(display.contains("daimon: 2"));
    assert!(display.contains("aegis: 1"));
}

#[test]
fn review_tampered_chain() {
    let mut chain = AuditChain::new();
    chain.append(EventSeverity::Info, "src", "act", "{}");
    let mut entries = chain.entries().to_vec();
    entries[0].action = "hacked".into();
    let chain = AuditChain::from_entries(entries);

    let review = chain.review();
    assert!(matches!(review.integrity, IntegrityStatus::Invalid(_)));
    let display = review.render();
    assert!(display.contains("INVALID"));
}

#[test]
fn review_with_agents() {
    let mut chain = AuditChain::new();
    chain.append(EventSeverity::Info, "daimon", "start", "{}");
    let e = AuditEntry::new(EventSeverity::Info, "daimon", "task", "{}", chain.head_hash().unwrap())
        .with_agent("agent-01");
    let mut entries = chain.entries().to_vec();
    entries.push(e);
    let chain = AuditChain::from_entries(entries);

    let review = chain.review();
    assert_eq!(review.agents.get("agent-01"), Some(1));
    assert_eq!(review.agents.get("(none)"), Some(1));
}

#[test]
fn review_continued_chain() {
    let mut chain = AuditChain::new();
    chain.append(EventSeverity::Info, "src", "act", "{}");
    chain.rotate();
    chain.append(EventSeverity::Info, "src", "act2", "{}");

    let review = chain.review();
    assert!(review.continued_from.is_some());
    let display = review.render();
    assert!(display.contains("Continues:"));
}

#[test]
fn chain_display_entries() {
    let mut chain = AuditChain::new();
    chain.append(EventSeverity::Info, "daimon", "start", "{}");
    chain.append(EventSeverity::Info, "daimon", "stop", "{}");
    for entry in chain.entries() {
        let s = entry.display_line();
        assert!(s.contains("daimon"));
    }
}

#[test]
fn render_lists_sources_in_key_order() {
    let mut chain = AuditChain::new();
    chain.append(EventSeverity::Info, "zeta", "a", "{}");
    chain.append(EventSeverity::Info, "alpha", "b", "{}");
    chain.append(EventSeverity::Info, "mid", "c", "{}");
    let review = chain.review();
    let keys: Vec<&str> = review.sources.items().iter().map(|(k, _)| k.as_str()).collect();
    assert_eq!(keys, vec!["alpha", "mid", "zeta"]);
    let text = review.render();
    let a = text.find("  alpha: 1\n").unwrap();
    let m = text.find("  mid: 1\n").unwrap();
    let z = text.find("  zeta: 1\n").unwrap();
    assert!(a < m && m < z);
    assert!(text.starts_with("=== Chain Review ===\nEntries:    3\nIntegrity:  VALID\n"));
}

#[test]
fn invalid_review_carries_violation_message() {
    let e = AuditEntry::new(EventSeverity::Info, "s", "a", "{}", "bogus");
    let chain = AuditChain::from_entries(vec![e]);
    match chain.review().integrity {
        IntegrityStatus::Invalid(m) => {
            assert_eq!(m, "chain integrity violated at entry 0: expected hash , got bogus")
        }
        other => panic!("unexpected status {other:?}"),
    }
}

#[test]
fn tally_counts_and_orders() {
    let mut t = Tally::new();
    assert!(t.is_empty());
    t.add("b");
    t.add("a");
    t.add("b");
    t.add("c");
    assert_eq!(t.len(), 3);
    assert_eq!(t.get("a"), Some(1));
    assert_eq!(t.get("b"), Some(2));
    assert_eq!(t.get("c"), Some(1));
    assert_eq!(t.get("d"), None);
    let items: Vec<(String, usize)> = t.items().to_vec();
    assert_eq!(items, vec![("a".to_owned(), 1), ("b".to_owned(), 2), ("c".to_owned(), 1)]);
}

#[test]
fn abbreviate_hash_keeps_sixteen_characters() {
    assert_eq!(abbreviate_hash("0123456789abcdef"), "0123456789abcdef");
    assert_eq!(abbreviate_hash("0123456789abcdef0"), "0123456789abcdef...");
    assert_eq!(abbreviate_hash(""), "");
}

#[test]
fn integrity_status_text() {
    assert_eq!(IntegrityStatus::Valid.text(), "VALID");
    assert_eq!(IntegrityStatus::Empty.text(), "EMPTY");
    assert_eq!(IntegrityStatus::Invalid("x".into()).text(), "INVALID: x");
}
