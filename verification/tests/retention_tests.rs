use libro::chain::AuditChain;
use libro::entry::EventSeverity;
use libro::retention::{PolicyValue, RetentionPolicy, TaggedValue};
use libro::time::{Duration, Timestamp};

fn build_chain(n: usize) -> AuditChain {
    let mut chain = AuditChain::new();
    for i in 0..n {
        chain.append(EventSeverity::Info, "src", &format!("action-{i}"), "{}");
    }
    chain
}

#[test]
fn retention_keep_count_retains_last_n() {
    let mut chain = build_chain(10);
    let archive = chain.apply_retention(&RetentionPolicy::KeepCount(3)).unwrap();
    assert_eq!(archive.entries.len(), 7);
    assert_eq!(chain.len(), 3);
    assert!(chain.verify().is_ok());
    assert_eq!(chain.entries()[0].prev_hash(), archive.head_hash);
}

#[test]
fn retention_keep_count_larger_than_chain() {
    let mut chain = build_chain(5);
    let archive = chain.apply_retention(&RetentionPolicy::KeepCount(10));
    assert!(archive.is_none());
    assert_eq!(chain.len(), 5);
}

#[test]
fn retention_keep_count_zero_archives_all() {
    let mut chain = build_chain(5);
    let archive = chain.apply_retention(&RetentionPolicy::KeepCount(0)).unwrap();
    assert_eq!(archive.entries.len(), 5);
    assert!(chain.is_empty());
}

#[test]
fn retention_keep_after_timestamp() {
    let mut chain = build_chain(5);
    let cutoff = chain.entries()[2].timestamp();
    let archive = chain.apply_retention(&RetentionPolicy::KeepAfter(cutoff)).unwrap();
    assert!(!archive.entries.is_empty());
    assert!(chain.verify().is_ok());
    for e in chain.entries() {
        assert!(e.timestamp().is_after(&cutoff));
    }
}

#[test]
fn retention_keep_duration_recent() {
    let mut chain = build_chain(5);
    let archive = chain.apply_retention(&RetentionPolicy::KeepDuration(Duration::hours(1)));
    assert!(archive.is_none());
    assert_eq!(chain.len(), 5);
}

#[test]
fn retention_retention_on_empty_chain() {
    let mut chain = AuditChain::new();
    let archive = chain.apply_retention(&RetentionPolicy::KeepCount(5));
    assert!(archive.is_none());
}

#[test]
fn retention_retention_preserves_chain_continuity() {
    let mut chain = build_chain(10);
    let archive = chain.apply_retention(&RetentionPolicy::KeepCount(5)).unwrap();
    chain.append(EventSeverity::Info, "src", "new", "{}");
    assert!(chain.verify().is_ok());
    let archived_chain = AuditChain::from_entries(archive.entries);
    assert!(archived_chain.verify().is_ok());
}

#[test]
fn retention_keep_count_equal_to_len() {
    let mut chain = build_chain(5);
    let archive = chain.apply_retention(&RetentionPolicy::KeepCount(5));
    assert!(archive.is_none());
    assert_eq!(chain.len(), 5);
    assert!(chain.verify().is_ok());
}

#[test]
fn retention_then_append_then_review() {
    let mut chain = AuditChain::new();
    for i in 0..10 {
        chain.append(EventSeverity::Info, "daimon", &format!("action-{i}"), "{}");
    }
    chain.apply_retention(&RetentionPolicy::KeepCount(3));
    chain.append(EventSeverity::Security, "aegis", "alert", "{}");
    assert!(chain.verify().is_ok());

    let review = chain.review();
    assert_eq!(review.entry_count, 4);
    assert!(review.continued_from.is_some());
    assert_eq!(review.sources.get("daimon"), Some(3));
    assert_eq!(review.sources.get("aegis"), Some(1));
    assert_eq!(review.severities.get("Security"), Some(1));

    let display = review.render();
    assert!(display.contains("Continues:"));
    assert!(display.contains("VALID"));
}

#[test]
fn presets_spans() {
    let day = 86_400i64;
    match RetentionPolicy::pci_dss() {
        RetentionPolicy::KeepDuration(d) => assert_eq!(d.num_seconds(), 365 * day),
        _ => panic!("pci_dss is a duration"),
    }
    match RetentionPolicy::hipaa() {
        RetentionPolicy::KeepDuration(d) => assert_eq!(d.num_seconds(), 6 * 365 * day),
        _ => panic!("hipaa is a duration"),
    }
    match RetentionPolicy::sox() {
        RetentionPolicy::KeepDuration(d) => assert_eq!(d.num_seconds(), 7 * 365 * day),
        _ => panic!("sox is a duration"),
    }
    assert_eq!(RetentionPolicy::gdpr(Duration::days(30)), RetentionPolicy::KeepDuration(Duration::days(30)));
}

#[test]
fn split_index_keep_count() {
    let chain = build_chain(6);
    assert_eq!(RetentionPolicy::KeepCount(2).split_index(chain.entries()), 4);
    assert_eq!(RetentionPolicy::KeepCount(9).split_index(chain.entries()), 0);
}

#[test]
fn tagged_form_round_trip() {
    let (kind, value) = RetentionPolicy::KeepCount(1000).tagged();
    assert_eq!(kind, "KeepCount");
    assert_eq!(value, PolicyValue::Count(1000));
    let back = RetentionPolicy::from_tagged(
        "KeepCount",
        &TaggedValue { as_u64: Some(1000), as_i64: Some(1000), as_str: None },
    );
    assert_eq!(back, Ok(RetentionPolicy::KeepCount(1000)));

    let (kind, value) = RetentionPolicy::KeepDuration(Duration::seconds(86_400)).tagged();
    assert_eq!(kind, "KeepDuration");
    assert_eq!(value, PolicyValue::Seconds(86_400));

    let t = Timestamp::from_unix(1_772_323_200, 0).unwrap();
    let (kind, value) = RetentionPolicy::KeepAfter(t).tagged();
    assert_eq!(kind, "KeepAfter");
    assert_eq!(value, PolicyValue::Instant("2026-03-01T00:00:00+00:00".to_owned()));
    let back = RetentionPolicy::from_tagged(
        "KeepAfter",
        &TaggedValue { as_u64: None, as_i64: None, as_str: Some("2026-03-01T00:00:00Z".to_owned()) },
    );
    assert_eq!(back, Ok(RetentionPolicy::KeepAfter(t)));
}

#[test]
fn tagged_form_errors() {
    let none = TaggedValue { as_u64: None, as_i64: None, as_str: None };
    assert_eq!(
        RetentionPolicy::from_tagged("KeepCount", &none),
        Err("KeepCount value must be a number".to_owned())
    );
    assert_eq!(
        RetentionPolicy::from_tagged("KeepDuration", &none),
        Err("KeepDuration value must be seconds".to_owned())
    );
    assert_eq!(
        RetentionPolicy::from_tagged("KeepAfter", &none),
        Err("KeepAfter value must be an RFC3339 timestamp".to_owned())
    );
    assert_eq!(
        RetentionPolicy::from_tagged("KeepForever", &none),
        Err("unknown RetentionPolicy type: KeepForever".to_owned())
    );
    let bad_time = TaggedValue { as_u64: None, as_i64: None, as_str: Some("yesterday".to_owned()) };
    assert!(RetentionPolicy::from_tagged("KeepAfter", &bad_time).is_err());
}

#[test]
fn retention_keep_after_archives_older_entry_behind_newer_one() {
    let cutoff = Timestamp::from_unix(1_000, 0).unwrap();
    let newer = Timestamp::from_unix(2_000, 0).unwrap();
    let older = Timestamp::from_unix(500, 0).unwrap();
    let newest = Timestamp::from_unix(3_000, 0).unwrap();
    let mut chain = AuditChain::new();
    chain.append(EventSeverity::Info, "s", "a", "{}");
    chain.append(EventSeverity::Info, "s", "b", "{}");
    chain.append(EventSeverity::Info, "s", "c", "{}");
    let mut entries = chain.entries().to_vec();
    entries[0].timestamp = newer;
    entries[1].timestamp = older;
    entries[2].timestamp = newest;
    let mut chain = AuditChain::from_entries(entries);
    let archive = chain.apply_retention(&RetentionPolicy::KeepAfter(cutoff)).unwrap();
    assert_eq!(archive.entries.len(), 2);
    assert_eq!(chain.len(), 1);
    assert!(chain.entries().iter().all(|e| e.timestamp().is_after(&cutoff)));
}

#[test]
fn duration_holds_subsecond_parts() {
    let d = Duration::milliseconds(1_500);
    assert_eq!(d.num_seconds(), 1);
    assert_eq!(d.subsec_nanos(), 500_000_000);
    let n = Duration::milliseconds(-1_500);
    assert_eq!(n.num_seconds(), -1);
    assert_eq!(n.subsec_nanos(), 500_000_000);
    let (kind, _) = RetentionPolicy::KeepDuration(n).tagged();
    assert_eq!(kind, "KeepDuration");
}
