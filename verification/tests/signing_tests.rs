use libro::chain::AuditChain;
use libro::entry::{AuditEntry, EventSeverity};
use libro::merkle::{verify_proof, MerkleTree};
use libro::signing::{EntrySignature, SigningKey, VerifyingKey};
use libro::verify::verify_chain;

#[test]
fn sign_and_verify() {
    let key = SigningKey::generate();
    let entry = AuditEntry::new(EventSeverity::Info, "daimon", "start", "{}", "");
    let sig = key.sign(&entry);
    assert!(sig.verify(&entry, &key.verifying_key()));
}

#[test]
fn verify_fails_for_wrong_key() {
    let key_a = SigningKey::generate();
    let key_b = SigningKey::generate();
    let entry = AuditEntry::new(EventSeverity::Info, "s", "a", "{}", "");
    let sig = key_a.sign(&entry);
    assert!(!sig.verify(&entry, &key_b.verifying_key()));
}

#[test]
fn verify_fails_for_tampered_entry() {
    let key = SigningKey::generate();
    let entry = AuditEntry::new(EventSeverity::Info, "s", "a", "{}", "");
    let sig = key.sign(&entry);
    let other = AuditEntry::new(EventSeverity::Info, "s", "b", "{}", "");
    assert!(!sig.verify(&other, &key.verifying_key()));
}

#[test]
fn verify_fails_for_tampered_signature() {
    let key = SigningKey::generate();
    let entry = AuditEntry::new(EventSeverity::Info, "s", "a", "{}", "");
    let mut sig = key.sign(&entry);
    sig.signature = "00".repeat(64);
    assert!(!sig.verify(&entry, &key.verifying_key()));
}

#[test]
fn key_roundtrip() {
    let key = SigningKey::generate();
    let bytes = key.to_bytes();
    let restored = SigningKey::from_bytes(&bytes);
    assert_eq!(key.verifying_key().to_hex(), restored.verifying_key().to_hex());
}

#[test]
fn verifying_key_roundtrip() {
    let key = SigningKey::generate();
    let vk = key.verifying_key();
    let bytes = vk.to_bytes();
    let restored = VerifyingKey::from_bytes(&bytes).unwrap();
    assert_eq!(vk.to_hex(), restored.to_hex());
}

#[test]
fn sign_chain_entries() {
    let key = SigningKey::generate();
    let vk = key.verifying_key();
    let e1 = AuditEntry::new(EventSeverity::Info, "s", "a", "{}", "");
    let e2 = AuditEntry::new(EventSeverity::Info, "s", "b", "{}", e1.hash());
    let sig1 = key.sign(&e1);
    let sig2 = key.sign(&e2);
    assert!(sig1.verify(&e1, &vk));
    assert!(sig2.verify(&e2, &vk));
    assert!(!sig1.verify(&e2, &vk));
    assert!(!sig2.verify(&e1, &vk));
}

#[test]
fn signature_contains_entry_hash() {
    let key = SigningKey::generate();
    let entry = AuditEntry::new(EventSeverity::Info, "s", "a", "{}", "");
    let sig = key.sign(&entry);
    assert_eq!(sig.entry_hash, entry.hash());
}

#[test]
fn invalid_signature_hex() {
    let key = SigningKey::generate();
    let entry = AuditEntry::new(EventSeverity::Info, "s", "a", "{}", "");
    let mut sig = key.sign(&entry);
    sig.signature = "not-hex".to_owned();
    assert!(!sig.verify(&entry, &key.verifying_key()));
    sig.signature = "ab".to_owned();
    assert!(!sig.verify(&entry, &key.verifying_key()));
}

#[test]
fn invalid_verifying_key_bytes() {
    let result = VerifyingKey::from_bytes(&[0u8; 32]);
    let _ = result;
}

#[test]
fn sign_with_key_id() {
    let key = SigningKey::generate();
    let entry = AuditEntry::new(EventSeverity::Info, "s", "a", "{}", "");
    let sig = key.sign(&entry);
    assert!(sig.key_id.is_none());
    let sig = key.sign_with_key_id(&entry, "key-v2");
    assert_eq!(sig.key_id.as_deref(), Some("key-v2"));
    assert!(sig.verify(&entry, &key.verifying_key()));
}

#[test]
fn to_bytes_returns_zeroizing() {
    let key = SigningKey::generate();
    let bytes = key.to_bytes();
    let _: &[u8; 32] = &bytes;
    let restored = SigningKey::from_bytes(&bytes);
    assert_eq!(key.verifying_key().to_hex(), restored.verifying_key().to_hex());
}

#[test]
fn signing_key_deterministic_from_seed() {
    let seed = [42u8; 32];
    let key1 = SigningKey::from_bytes(&seed);
    let key2 = SigningKey::from_bytes(&seed);
    assert_eq!(key1.verifying_key().to_hex(), key2.verifying_key().to_hex());
    let entry = AuditEntry::new(EventSeverity::Info, "src", "act", "{}", "");
    let sig1 = key1.sign(&entry);
    let sig2 = key2.sign(&entry);
    assert_eq!(sig1.signature, sig2.signature);
}

#[test]
fn signing_merkle_chain_integration() {
    let key = SigningKey::generate();
    let vk = key.verifying_key();
    let mut chain = AuditChain::new();
    let mut sigs: Vec<EntrySignature> = Vec::new();
    for i in 0..5 {
        chain.append(EventSeverity::Info, "src", &format!("e{i}"), "{}");
        sigs.push(key.sign(chain.entries().last().unwrap()));
    }
    assert!(chain.verify().is_ok());
    for (i, sig) in sigs.iter().enumerate() {
        assert!(sig.verify(&chain.entries()[i], &vk), "sig {i} failed");
    }
    let tree = MerkleTree::build(chain.entries()).unwrap();
    for i in 0..5 {
        let proof = tree.inclusion_proof(i).unwrap();
        assert!(verify_proof(&proof), "proof {i} failed");
    }
    let mut entries = chain.entries().to_vec();
    entries[2].action = "hacked".into();
    assert!(!entries[2].verify());
    assert!(verify_chain(&entries).is_err());
    assert!(sigs[2].verify(&entries[2], &vk));
    assert!(!entries[2].verify());
    let tampered_tree = MerkleTree::build(&entries).unwrap();
    assert_eq!(tree.root(), tampered_tree.root());
}

#[test]
fn rfc8032_test_vector_public_key_and_signature() {
    // RFC 8032 section 7.1, test 1 (empty message).
    let secret: [u8; 32] = [
        0x9d, 0x61, 0xb1, 0x9d, 0xef, 0xfd, 0x5a, 0x60, 0xba, 0x84, 0x4a, 0xf4, 0x92, 0xec, 0x2c, 0xc4, 0x44, 0x49,
        0xc5, 0x69, 0x7b, 0x32, 0x69, 0x19, 0x70, 0x3b, 0xac, 0x03, 0x1c, 0xae, 0x7f, 0x60,
    ];
    let key = SigningKey::from_bytes(&secret);
    assert_eq!(
        key.verifying_key().to_hex(),
        "d75a980182b10ab7d54bfed3c964073a0ee172f3daa62325af021a68f707511a"
    );
    let sig = key.sign_bytes(&[]);
    assert_eq!(sig.len(), 64);
    assert!(key.verifying_key().verify_bytes(&[], &sig));
    assert!(!key.verifying_key().verify_bytes(&[], &sig[..63]));
    assert_eq!(key.algorithm(), "ed25519");
}

#[test]
fn signature_record_hex_fields() {
    let key = SigningKey::from_bytes(&[7u8; 32]);
    let entry = AuditEntry::new(EventSeverity::Info, "s", "a", "{}", "");
    let sig = key.sign(&entry);
    assert_eq!(sig.signature.len(), 128);
    assert_eq!(sig.verifying_key, key.verifying_key().to_hex());
}
