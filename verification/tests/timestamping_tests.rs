use libro::chain::AuditChain;
use libro::entry::{AuditEntry, EventSeverity};
use libro::error::LibroError;
use libro::merkle::MerkleTree;
use libro::timestamping::{
    der_decode_unsigned, der_length, der_parse_tlv, der_sequence, der_tlv, trim_leading_zeros,
    TimestampAttestation, TimestampHashAlgorithm, TimestampRequest, TimestampResponse, TimestampStatus,
    TimestampSubject, DER_INTEGER, DER_OCTET_STRING, DER_SEQUENCE,
};

#[test]
fn request_new() {
    let req = TimestampRequest::new("abcdef1234");
    assert_eq!(req.message_imprint_hash, "abcdef1234");
    assert_eq!(req.hash_algorithm, TimestampHashAlgorithm::Sha256);
    assert!(req.cert_req);
    assert!(req.nonce.is_none());
}

#[test]
fn request_with_algorithm() {
    let req = TimestampRequest::with_algorithm("abc", TimestampHashAlgorithm::Sha512);
    assert_eq!(req.hash_algorithm, TimestampHashAlgorithm::Sha512);
}

#[test]
fn request_with_nonce() {
    let req = TimestampRequest::new("abc").with_nonce();
    let nonce = req.nonce.as_ref().unwrap();
    assert_eq!(nonce.len(), 32);
}

#[test]
fn request_nonce_varies() {
    let r1 = TimestampRequest::new("abc").with_nonce();
    let r2 = TimestampRequest::new("abc").with_nonce();
    assert_ne!(r1.nonce, r2.nonce);
}

#[test]
fn request_from_entry() {
    let entry = AuditEntry::new(EventSeverity::Info, "s", "a", "{}", "");
    let req = TimestampRequest::from_entry(&entry);
    assert_eq!(req.message_imprint_hash, entry.hash());
}

#[test]
fn request_from_merkle_root() {
    let e1 = AuditEntry::new(EventSeverity::Info, "s", "a", "{}", "");
    let tree = MerkleTree::build(&[e1]).unwrap();
    let req = TimestampRequest::from_merkle_root(&tree);
    assert_eq!(req.message_imprint_hash, tree.root());
}

#[test]
fn request_from_chain_head() {
    let mut chain = AuditChain::new();
    assert!(TimestampRequest::from_chain_head(&chain).is_none());
    chain.append(EventSeverity::Info, "s", "a", "{}");
    let req = TimestampRequest::from_chain_head(&chain).unwrap();
    assert_eq!(req.message_imprint_hash, chain.head_hash().unwrap());
}

#[test]
fn request_to_der_structure() {
    let hash_hex = "a".repeat(64);
    let req = TimestampRequest::new(&hash_hex);
    let der = req.to_der();
    assert_eq!(der[0], DER_SEQUENCE);
    let (_, content) = der_parse_tlv(&der).unwrap();
    assert_eq!(content[0], DER_INTEGER);
    let (ver_len, ver_val) = der_parse_tlv(content).unwrap();
    assert_eq!(ver_val, &[0x01]);
    assert_eq!(content[ver_len], DER_SEQUENCE);
}

#[test]
fn request_to_der_with_nonce() {
    let hash_hex = "b".repeat(64);
    let req = TimestampRequest::new(&hash_hex).with_nonce();
    let der = req.to_der();
    let der_no_nonce = TimestampRequest::new(&hash_hex).to_der();
    assert!(der.len() > der_no_nonce.len());
}

#[test]
fn request_to_der_no_cert_req() {
    let hash_hex = "c".repeat(64);
    let req = TimestampRequest::new(&hash_hex).with_cert_req(false);
    let der = req.to_der();
    let der_with_cert = TimestampRequest::new(&hash_hex).to_der();
    assert!(der.len() < der_with_cert.len());
}

#[test]
fn response_from_der_granted() {
    let status_int = der_tlv(DER_INTEGER, &[0x00]);
    let status_info = der_sequence(&[&status_int]);
    let fake_token = vec![0x30, 0x03, 0x01, 0x01, 0xFF];
    let mut resp_content = Vec::new();
    resp_content.extend_from_slice(&status_info);
    resp_content.extend_from_slice(&fake_token);
    let resp_der = der_tlv(DER_SEQUENCE, &resp_content);

    let resp = TimestampResponse::from_der(&resp_der).unwrap();
    assert_eq!(resp.status, TimestampStatus::Granted);
    assert!(resp.is_granted());
    assert!(resp.token.is_some());
}

#[test]
fn response_from_der_rejected() {
    let status_int = der_tlv(DER_INTEGER, &[0x02]);
    let status_info = der_sequence(&[&status_int]);
    let resp_der = der_sequence(&[&status_info]);
    let resp = TimestampResponse::from_der(&resp_der).unwrap();
    assert_eq!(resp.status, TimestampStatus::Rejection);
    assert!(!resp.is_granted());
    assert!(resp.token.is_none());
}

#[test]
fn response_from_der_invalid() {
    assert!(TimestampResponse::from_der(&[]).is_err());
    assert!(TimestampResponse::from_der(&[0x01, 0x02]).is_err());
}

#[test]
fn attestation_granted() {
    let resp = TimestampResponse {
        status: TimestampStatus::Granted,
        token: Some("deadbeef".into()),
        status_string: None,
    };
    let att =
        TimestampAttestation::new("myhash", TimestampSubject::EntryHash, TimestampHashAlgorithm::Sha256, &resp)
            .unwrap();
    assert_eq!(att.hash, "myhash");
    assert_eq!(att.token_der, "deadbeef");
    assert!(att.verify_hash("myhash"));
    assert!(!att.verify_hash("other"));
}

#[test]
fn attestation_rejected() {
    let resp = TimestampResponse { status: TimestampStatus::Rejection, token: None, status_string: None };
    let err =
        TimestampAttestation::new("myhash", TimestampSubject::EntryHash, TimestampHashAlgorithm::Sha256, &resp)
            .unwrap_err();
    assert!(err.message().contains("Rejection"));
}

#[test]
fn attestation_for_merkle_root() {
    let e1 = AuditEntry::new(EventSeverity::Info, "s", "a", "{}", "");
    let tree = MerkleTree::build(&[e1]).unwrap();
    let resp = TimestampResponse {
        status: TimestampStatus::Granted,
        token: Some("token123".into()),
        status_string: None,
    };
    let att = TimestampAttestation::for_merkle_root(&tree, &resp).unwrap();
    assert_eq!(att.hash, tree.root());
    assert_eq!(att.hash_subject, TimestampSubject::MerkleRoot);
}

#[test]
fn attestation_for_entry() {
    let entry = AuditEntry::new(EventSeverity::Info, "s", "a", "{}", "");
    let resp = TimestampResponse {
        status: TimestampStatus::Granted,
        token: Some("token123".into()),
        status_string: None,
    };
    let att = TimestampAttestation::for_entry(&entry, &resp).unwrap();
    assert_eq!(att.hash, entry.hash());
    assert_eq!(att.hash_subject, TimestampSubject::EntryHash);
}

#[test]
fn attestation_with_tsa_url() {
    let resp = TimestampResponse { status: TimestampStatus::Granted, token: Some("tok".into()), status_string: None };
    let att = TimestampAttestation::new("h", TimestampSubject::ChainHead, TimestampHashAlgorithm::Sha256, &resp)
        .unwrap()
        .with_tsa_url("https://tsa.example.com");
    assert_eq!(att.tsa_url.as_deref(), Some("https://tsa.example.com"));
}

#[test]
fn all_status_variants() {
    for v in 0..=5 {
        assert!(TimestampStatus::from_value(v).is_some());
    }
    assert!(TimestampStatus::from_value(6).is_none());
}

#[test]
fn der_length_encoding() {
    assert_eq!(der_length(0), vec![0x00]);
    assert_eq!(der_length(127), vec![0x7F]);
    assert_eq!(der_length(128), vec![0x81, 0x80]);
    assert_eq!(der_length(255), vec![0x81, 0xFF]);
    assert_eq!(der_length(256), vec![0x82, 0x01, 0x00]);
}

#[test]
fn der_roundtrip_tlv() {
    let data = b"hello world";
    let encoded = der_tlv(DER_OCTET_STRING, data);
    let (total, decoded) = der_parse_tlv(&encoded).unwrap();
    assert_eq!(total, encoded.len());
    assert_eq!(decoded, data);
}

#[test]
fn der_length_three_byte_form() {
    assert_eq!(der_length(65536), vec![0x83, 0x01, 0x00, 0x00]);
    assert_eq!(der_length(0x12_3456), vec![0x83, 0x12, 0x34, 0x56]);
}

#[test]
fn der_parse_errors() {
    assert_eq!(der_parse_tlv(&[0x04]), Err("truncated TLV"));
    assert_eq!(der_parse_tlv(&[0x04, 0x82, 0x01]), Err("truncated length"));
    assert_eq!(der_parse_tlv(&[0x04, 0x05, 0x01]), Err("truncated value"));
}

#[test]
fn der_parse_long_form() {
    let value = vec![7u8; 300];
    let encoded = der_tlv(DER_OCTET_STRING, &value);
    assert_eq!(&encoded[..4], &[0x04, 0x82, 0x01, 0x2C]);
    let (total, decoded) = der_parse_tlv(&encoded).unwrap();
    assert_eq!(total, 304);
    assert_eq!(decoded, &value[..]);
}

#[test]
fn der_unsigned_and_trim() {
    assert_eq!(der_decode_unsigned(&[0x01, 0x00]), 256);
    assert_eq!(der_decode_unsigned(&[]), 0);
    assert_eq!(der_decode_unsigned(&[1, 0, 0, 0, 0, 0, 0, 0, 5]), 5);
    assert_eq!(trim_leading_zeros(&[0, 0, 3, 0]), vec![3, 0]);
    assert_eq!(trim_leading_zeros(&[0, 0]), vec![0]);
    assert_eq!(trim_leading_zeros(&[]), vec![0]);
}

#[test]
fn from_der_error_messages() {
    let not_seq = der_tlv(DER_INTEGER, &[0x00]);
    match TimestampResponse::from_der(&not_seq) {
        Err(LibroError::Der(m)) => assert_eq!(m, "expected SEQUENCE at top level"),
        other => panic!("unexpected {other:?}"),
    }
    match TimestampResponse::from_der(&[]) {
        Err(LibroError::Der(m)) => assert_eq!(m, "outer sequence: truncated TLV"),
        other => panic!("unexpected {other:?}"),
    }
    let status_int = der_tlv(DER_INTEGER, &[0x07]);
    let status_info = der_sequence(&[&status_int]);
    let resp_der = der_sequence(&[&status_info]);
    match TimestampResponse::from_der(&resp_der) {
        Err(LibroError::Der(m)) => assert_eq!(m, "unknown PKI status: 7"),
        other => panic!("unexpected {other:?}"),
    }
}

#[test]
fn granted_token_is_hex_of_trailing_bytes() {
    let status_int = der_tlv(DER_INTEGER, &[0x01]);
    let status_info = der_sequence(&[&status_int]);
    let token = [0x30u8, 0x00];
    let resp_der = der_sequence(&[&status_info, &token]);
    let resp = TimestampResponse::from_der(&resp_der).unwrap();
    assert_eq!(resp.status, TimestampStatus::GrantedWithMods);
    assert_eq!(resp.token.as_deref(), Some("3000"));
}

#[test]
fn request_der_exact_bytes() {
    let req = TimestampRequest::new("0102").with_cert_req(false);
    let der = req.to_der();
    let expected: Vec<u8> = vec![
        0x30, 0x18, 0x02, 0x01, 0x01, 0x30, 0x13, 0x30, 0x0d, 0x06, 0x09, 0x60, 0x86, 0x48, 0x01, 0x65, 0x03, 0x04,
        0x02, 0x01, 0x05, 0x00, 0x04, 0x02, 0x01, 0x02,
    ];
    assert_eq!(der, expected);
}

#[test]
fn attestation_without_token_is_error() {
    let resp = TimestampResponse { status: TimestampStatus::Granted, token: None, status_string: None };
    let err = TimestampAttestation::new("h", TimestampSubject::EntryHash, TimestampHashAlgorithm::Sha256, &resp)
        .unwrap_err();
    assert_eq!(err.message(), "timestamp error: granted response has no token");
}

#[test]
fn status_names() {
    assert_eq!(TimestampStatus::Rejection.name(), "Rejection");
    assert_eq!(TimestampStatus::RevocationNotification.name(), "RevocationNotification");
}

#[test]
fn der_length_uses_as_many_bytes_as_needed() {
    assert_eq!(der_length(1 << 24), vec![0x84, 0x01, 0x00, 0x00, 0x00]);
    assert_eq!(der_length(0x0123_4567_89), vec![0x85, 0x01, 0x23, 0x45, 0x67, 0x89]);
    let mut encoded = vec![DER_OCTET_STRING];
    encoded.extend(der_length(1 << 24));
    assert_eq!(der_parse_tlv(&encoded), Err("truncated value"));
}

#[test]
fn der_parse_tlv_huge_length_is_truncated_value() {
    let mut data = vec![0x04, 0x88];
    data.extend([0xFF; 8]);
    assert_eq!(der_parse_tlv(&data), Err("truncated value"));
    let mut data = vec![0x04, 0x89];
    data.extend([0x01; 9]);
    assert_eq!(der_parse_tlv(&data), Err("truncated value"));
}

#[test]
fn from_der_rejects_untrusted_huge_length() {
    let mut der = vec![0x30, 0x88];
    der.extend([0xFF; 8]);
    match TimestampResponse::from_der(&der) {
        Err(LibroError::Der(m)) => assert_eq!(m, "outer sequence: truncated value"),
        other => panic!("unexpected: {other:?}"),
    }
}

#[test]
fn from_der_status_beyond_64_bits_is_error() {
    let der = [0x30, 0x0D, 0x30, 0x0B, 0x02, 0x09, 0x01, 0, 0, 0, 0, 0, 0, 0, 0];
    match TimestampResponse::from_der(&der) {
        Err(LibroError::Der(m)) => assert_eq!(m, "unknown PKI status: out of range"),
        other => panic!("unexpected: {other:?}"),
    }
}

#[test]
fn from_der_token_after_rejection_is_error() {
    let der = [0x30, 0x0A, 0x30, 0x03, 0x02, 0x01, 0x02, 0x30, 0x03, 0x01, 0x01, 0xFF];
    match TimestampResponse::from_der(&der) {
        Err(LibroError::Der(m)) => assert_eq!(m, "token present for a status that grants none"),
        other => panic!("unexpected: {other:?}"),
    }
}

#[test]
fn cert_req_appends_boolean_true() {
    let hash = "ab".repeat(32);
    let t = TimestampRequest::new(&hash).with_cert_req(true).to_der();
    let f = TimestampRequest::new(&hash).with_cert_req(false).to_der();
    assert_eq!(t.len(), f.len() + 3);
    assert_eq!(t[1], f[1] + 3);
    assert_eq!(&t[2..t.len() - 3], &f[2..]);
    assert!(t.ends_with(&[0x01, 0x01, 0xFF]));
}
