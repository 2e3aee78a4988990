use libro::entry::{AuditEntry, EventSeverity};
use libro::hasher::{constant_time_eq, hex_decode, hex_encode, sha256_hex, ChainHasher, HASH_ALGORITHM};
use libro::jsonl::{is_blank, line_error};
use libro::sql::{entry_columns, entry_from_row, filter_query, RowFields, SELECT_COLS};
use libro::query::QueryFilter;
use libro::streaming::{topic_for, DEFAULT_TOPIC_PREFIX};
use libro::text::{compare_text, decimal_string, TextOrder};
use libro::time::Timestamp;
use libro::error::LibroError;

#[test]
fn hex_round_trip_and_case() {
    let bytes = [0x00u8, 0x0f, 0xa5, 0xff];
    let text = hex_encode(&bytes);
    assert_eq!(text, "000fa5ff");
    assert_eq!(hex_decode(&text), Some(bytes.to_vec()));
    assert_eq!(hex_decode("0FA5"), Some(vec![0x0f, 0xa5]));
    assert_eq!(hex_decode("abc"), None);
    assert_eq!(hex_decode("zz"), None);
}

#[test]
fn sha256_known_value() {
    assert_eq!(sha256_hex(b"abc"), "ba7816bf8f01cfea414140de5dae2223b00361a396177a9cb410ff61f20015ad");
    assert_eq!(HASH_ALGORITHM, "sha256");
    let mut h = ChainHasher::new();
    h.update(b"a");
    h.update(b"bc");
    assert_eq!(h.finalize_hex(), sha256_hex(b"abc"));
}

#[test]
fn constant_time_eq_cases() {
    assert!(constant_time_eq("abc", "abc"));
    assert!(!constant_time_eq("abc", "abd"));
    assert!(!constant_time_eq("abc", "ab"));
    assert!(constant_time_eq("", ""));
}

#[test]
fn text_order() {
    assert_eq!(compare_text("a", "b"), TextOrder::Before);
    assert_eq!(compare_text("b", "a"), TextOrder::After);
    assert_eq!(compare_text("ab", "ab"), TextOrder::Same);
    assert_eq!(compare_text("ab", "abc"), TextOrder::Before);
    assert_eq!(compare_text("Z", "a"), TextOrder::Before);
    assert_eq!(decimal_string(0), "0");
    assert_eq!(decimal_string(1234567890), "1234567890");
}

#[test]
fn blank_lines() {
    assert!(is_blank(""));
    assert!(is_blank("  \t\r"));
    assert!(is_blank("\u{3000}"));
    assert!(!is_blank(" {} "));
    match line_error(3, "bad json") {
        LibroError::Store(m) => assert_eq!(m, "line 3: bad json"),
        other => panic!("unexpected {other:?}"),
    }
}

#[test]
fn stream_topics() {
    let e = AuditEntry::new(EventSeverity::Info, "daimon", "agent.start", "{}", "");
    assert_eq!(topic_for(DEFAULT_TOPIC_PREFIX, &e), "libro/daimon/agent.start");
    assert_eq!(topic_for("audit", &e), "audit/daimon/agent.start");
}

#[test]
fn sql_for_filters() {
    let (sql, params) = filter_query(&QueryFilter::new());
    assert_eq!(sql, format!("{SELECT_COLS} ORDER BY seq"));
    assert!(params.is_empty());
    let before = Timestamp::from_unix(1_700_000_000, 0).unwrap();
    let (sql, params) = filter_query(&QueryFilter::new().source("aegis").severity(EventSeverity::Security).before(before));
    assert_eq!(
        sql,
        format!("{SELECT_COLS} WHERE source = ?1 AND severity = ?2 AND timestamp < ?3 ORDER BY seq")
    );
    assert_eq!(params, vec!["aegis".to_owned(), "Security".to_owned(), before.to_rfc3339()]);
}

#[test]
fn row_round_trip() {
    let e = AuditEntry::new(EventSeverity::Critical, "src", "act", r#"{"a":1}"#, "").with_agent("ag");
    let cols = entry_columns(&e);
    assert_eq!(cols.len(), 9);
    let row = RowFields {
        id: cols[0].clone().unwrap(),
        timestamp: cols[1].clone().unwrap(),
        severity: cols[2].clone().unwrap(),
        source: cols[3].clone().unwrap(),
        action: cols[4].clone().unwrap(),
        details: cols[5].clone().unwrap(),
        agent_id: cols[6].clone(),
        prev_hash: cols[7].clone().unwrap(),
        hash: cols[8].clone().unwrap(),
    };
    let back = entry_from_row(row).unwrap();
    assert_eq!(back, e);
    assert!(back.verify());
}

#[test]
fn row_errors_name_columns() {
    let base = RowFields {
        id: "not-a-uuid".into(),
        timestamp: "2024-01-01T00:00:00Z".into(),
        severity: "Info".into(),
        source: "s".into(),
        action: "a".into(),
        details: "{}".into(),
        agent_id: None,
        prev_hash: "".into(),
        hash: "h".into(),
    };
    assert_eq!(entry_from_row(base.clone()).unwrap_err().column, 0);
    let mut r = base.clone();
    r.id = "67e55044-10b1-426f-9247-bb680e5fe0c8".into();
    r.timestamp = "yesterday".into();
    assert_eq!(entry_from_row(r.clone()).unwrap_err().column, 1);
    r.timestamp = "2024-01-01T00:00:00Z".into();
    r.severity = "Fatal".into();
    let err = entry_from_row(r.clone()).unwrap_err();
    assert_eq!(err.column, 2);
    assert_eq!(err.message, "unknown severity: Fatal");
    r.severity = "Info".into();
    r.details = "{bad".into();
    assert_eq!(entry_from_row(r.clone()).unwrap_err().column, 5);
    r.details = r#"{ "b": 2, "a": 1 }"#.into();
    let e = entry_from_row(r).unwrap();
    assert_eq!(e.details, r#"{"a":1,"b":2}"#);
}

#[test]
fn timestamp_parse_and_print() {
    let t = Timestamp::parse_rfc3339("2024-01-01T00:00:00Z").unwrap();
    assert_eq!(t.secs(), 1_704_067_200);
    assert_eq!(t.nanos(), 0);
    assert_eq!(t.to_rfc3339(), "2024-01-01T00:00:00+00:00");
    assert!(Timestamp::parse_rfc3339("nope").is_err());
    let later = Timestamp::from_unix(1_704_067_200, 1).unwrap();
    assert!(later.is_after(&t));
    assert!(!t.is_after(&later));
}

#[test]
fn custom_prefix() {
    let entry = AuditEntry::new(EventSeverity::Info, "daimon", "start", "{}", "");
    assert_eq!(topic_for("audit/prod", &entry), "audit/prod/daimon/start");
}
