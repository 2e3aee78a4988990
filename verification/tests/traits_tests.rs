use libro::anchoring::{AnchorVerification, WitnessAnchor, WitnessReceipt};
use libro::chain::{AuditChain, ChainArchive};
use libro::entry::{AuditEntry, EventSeverity};
use libro::merkle::{ConsistencyProof, MerkleProof, MerkleTree, ProofNode, Side};
use libro::query::QueryFilter;
use libro::retention::RetentionPolicy;
use libro::review::{ChainReview, IntegrityStatus};
use libro::signing::{EntrySignature, VerifyingKey};
use libro::timestamping::{TimestampAttestation, TimestampRequest, TimestampResponse};

fn assert_send_sync<T: Send + Sync>() {}
fn assert_partial_eq<T: PartialEq>() {}
fn assert_clone<T: Clone>() {}

#[test]
fn core_types_are_send_sync() {
    assert_send_sync::<AuditEntry>();
    assert_send_sync::<AuditChain>();
    assert_send_sync::<ChainArchive>();
    assert_send_sync::<QueryFilter>();
    assert_send_sync::<RetentionPolicy>();
    assert_send_sync::<ChainReview>();
    assert_send_sync::<MerkleTree>();
    assert_send_sync::<MerkleProof>();
    assert_send_sync::<ConsistencyProof>();
}

#[test]
fn core_types_are_partial_eq() {
    assert_partial_eq::<AuditEntry>();
    assert_partial_eq::<ChainArchive>();
    assert_partial_eq::<ChainReview>();
    assert_partial_eq::<IntegrityStatus>();
    assert_partial_eq::<MerkleProof>();
    assert_partial_eq::<ConsistencyProof>();
    assert_partial_eq::<ProofNode>();
    assert_partial_eq::<Side>();
    assert_partial_eq::<RetentionPolicy>();
    assert_partial_eq::<EventSeverity>();
}

#[test]
fn core_types_are_clone() {
    assert_clone::<AuditEntry>();
    assert_clone::<ChainArchive>();
    assert_clone::<IntegrityStatus>();
    assert_clone::<MerkleTree>();
    assert_clone::<MerkleProof>();
    assert_clone::<ConsistencyProof>();
    assert_clone::<ProofNode>();
    assert_clone::<RetentionPolicy>();
    assert_clone::<QueryFilter>();
}

#[test]
fn signing_types_traits() {
    assert_partial_eq::<EntrySignature>();
    assert_clone::<EntrySignature>();
    assert_clone::<VerifyingKey>();
}

#[test]
fn anchoring_types_traits() {
    assert_send_sync::<WitnessAnchor>();
    assert_send_sync::<WitnessReceipt>();
    assert_send_sync::<AnchorVerification>();
    assert_clone::<WitnessAnchor>();
    assert_clone::<WitnessReceipt>();
    assert_clone::<AnchorVerification>();
    assert_partial_eq::<WitnessAnchor>();
    assert_partial_eq::<WitnessReceipt>();
    assert_partial_eq::<AnchorVerification>();
}

#[test]
fn timestamping_types_traits() {
    assert_send_sync::<TimestampRequest>();
    assert_send_sync::<TimestampResponse>();
    assert_send_sync::<TimestampAttestation>();
    assert_clone::<TimestampRequest>();
    assert_clone::<TimestampResponse>();
    assert_clone::<TimestampAttestation>();
    assert_partial_eq::<TimestampRequest>();
    assert_partial_eq::<TimestampResponse>();
    assert_partial_eq::<TimestampAttestation>();
}

#[test]
fn cloned_tree_keeps_root() {
    let e = AuditEntry::new(EventSeverity::Info, "s", "a", "{}", "");
    let tree = MerkleTree::build(&[e]).unwrap();
    let copy = tree.clone();
    assert_eq!(copy.root(), tree.root());
    assert_eq!(copy.leaf_count(), 1);
}
