use libro::anchoring::WitnessAnchor;
use libro::chain::AuditChain;
use libro::entry::EventSeverity;
use libro::integrity::IntegrityProof;
use libro::merkle::MerkleTree;
use libro::signing::SigningKey;

fn make_chain(n: usize) -> AuditChain {
    let mut chain = AuditChain::new();
    for i in 0..n {
        chain.append(EventSeverity::Info, "audit", &format!("event.{i}"), &format!(r#"{{"i":{i}}}"#));
    }
    chain
}

#[test]
fn unsigned_proof_build_and_verify() {
    let chain = make_chain(5);
    let proof = IntegrityProof::builder_unsigned(&chain).unwrap().with_all_inclusions().build();
    assert_eq!(proof.tree_head.tree_size, 5);
    assert_eq!(proof.entries.len(), 5);
    assert_eq!(proof.inclusions.len(), 5);
    assert!(proof.tree_head.signature.is_empty());
    let result = proof.verify_unsigned();
    assert!(result.entries_valid);
    assert!(result.tree_matches);
    assert!(result.inclusions_valid);
    assert!(result.is_valid());
}

#[test]
fn signed_proof_build_and_verify() {
    let chain = make_chain(5);
    let key = SigningKey::generate();
    let proof = IntegrityProof::builder(&chain, &key).unwrap().with_all_inclusions().build();
    assert!(!proof.tree_head.signature.is_empty());
    assert_eq!(proof.tree_head.algorithm.as_deref(), Some("ed25519"));
    let result = proof.verify(&key.verifying_key());
    assert!(result.tree_head_valid);
    assert!(result.entries_valid);
    assert!(result.tree_matches);
    assert!(result.inclusions_valid);
    assert!(result.is_valid());
}

#[test]
fn signed_proof_wrong_key_fails() {
    let chain = make_chain(3);
    let key_a = SigningKey::generate();
    let key_b = SigningKey::generate();
    let proof = IntegrityProof::builder(&chain, &key_a).unwrap().build();
    let result = proof.verify(&key_b.verifying_key());
    assert!(!result.tree_head_valid);
    assert!(!result.is_valid());
}

#[test]
fn proof_with_consistency() {
    let chain = make_chain(10);
    let proof = IntegrityProof::builder_unsigned(&chain).unwrap().with_consistency_from(5).build();
    assert!(proof.consistency.is_some());
    let result = proof.verify_unsigned();
    assert_eq!(result.consistency_valid, Some(true));
    assert!(result.is_valid());
}

#[test]
fn proof_with_selective_inclusions() {
    let chain = make_chain(10);
    let proof = IntegrityProof::builder_unsigned(&chain)
        .unwrap()
        .with_inclusion(0)
        .with_inclusion(5)
        .with_inclusion(9)
        .build();
    assert_eq!(proof.inclusions.len(), 3);
    let result = proof.verify_unsigned();
    assert!(result.inclusions_valid);
    assert!(result.is_valid());
}

#[test]
fn proof_with_anchor() {
    let chain = make_chain(5);
    let tree = MerkleTree::build(chain.entries()).unwrap();
    let anchor = WitnessAnchor::new(&tree, &chain).unwrap();
    let proof = IntegrityProof::builder_unsigned(&chain).unwrap().with_anchor(&anchor).build();
    assert!(proof.anchor.is_some());
    let result = proof.verify_unsigned();
    assert_eq!(result.anchor_valid, Some(true));
    assert!(result.is_valid());
}

#[test]
fn tampered_entry_detected() {
    let chain = make_chain(5);
    let mut proof = IntegrityProof::builder_unsigned(&chain).unwrap().build();
    proof.entries[2].action = "hacked".into();
    let result = proof.verify_unsigned();
    assert!(!result.entries_valid);
    assert!(!result.is_valid());
}

#[test]
fn tampered_inclusion_detected() {
    let chain = make_chain(5);
    let mut proof = IntegrityProof::builder_unsigned(&chain).unwrap().with_all_inclusions().build();
    proof.inclusions[2].leaf_hash = "tampered".to_owned();
    let result = proof.verify_unsigned();
    assert!(!result.inclusions_valid);
    assert!(!result.is_valid());
}

#[test]
fn tree_mismatch_detected() {
    let chain = make_chain(5);
    let mut proof = IntegrityProof::builder_unsigned(&chain).unwrap().build();
    proof.tree_head.root = "wrong_root".to_owned();
    let result = proof.verify_unsigned();
    assert!(!result.tree_matches);
    assert!(!result.is_valid());
}

#[test]
fn empty_chain_returns_none() {
    let chain = AuditChain::new();
    assert!(IntegrityProof::builder_unsigned(&chain).is_none());
}

#[test]
fn out_of_range_inclusion_is_skipped() {
    let chain = make_chain(3);
    let proof = IntegrityProof::builder_unsigned(&chain).unwrap().with_inclusion(7).build();
    assert!(proof.inclusions.is_empty());
    assert!(proof.verify_unsigned().is_valid());
}

#[test]
fn consistency_with_bad_new_root_is_invalid() {
    let chain = make_chain(6);
    let mut proof = IntegrityProof::builder_unsigned(&chain).unwrap().with_consistency_from(3).build();
    if let Some(c) = proof.consistency.as_mut() {
        c.new_root = "other".to_owned();
    }
    let result = proof.verify_unsigned();
    assert_eq!(result.consistency_valid, Some(false));
    assert!(!result.is_valid());
}

#[test]
fn tampered_anchor_detected() {
    let chain = make_chain(2);
    let tree = MerkleTree::build(chain.entries()).unwrap();
    let mut anchor = WitnessAnchor::new(&tree, &chain).unwrap();
    anchor.entry_count = 9;
    let proof = IntegrityProof::builder_unsigned(&chain).unwrap().with_anchor(&anchor).build();
    assert_eq!(proof.verify_unsigned().anchor_valid, Some(false));
}
