//! Tamper-proof audit chains: hash-linked entries, Merkle trees with
//! inclusion and consistency proofs, retention, review, export, signing,
//! anchoring and RFC 3161 timestamping, with their contracts proved.

pub mod anchoring;
pub mod chain;
pub mod consistency;
pub mod entry;
pub mod error;
pub mod export;
pub mod hasher;
pub mod integrity;
pub mod jsonl;
pub mod kernel_audit;
pub mod merkle;
pub mod query;
pub mod retention;
pub mod review;
pub mod signing;
pub mod sql;
pub mod store;
pub mod streaming;
pub mod text;
pub mod time;
pub mod timestamping;
pub mod verify;

pub use anchoring::{AnchorVerification, WitnessAnchor, WitnessBackend, WitnessReceipt};
pub use chain::{AuditChain, ChainArchive};
pub use entry::{AuditEntry, EventSeverity};
pub use error::{LibroError, Result};
pub use merkle::{ConsistencyProof, MerkleProof, MerkleTree, ProofNode, Side};
pub use query::QueryFilter;
pub use retention::RetentionPolicy;
pub use review::{ChainReview, IntegrityStatus};
pub use store::{AuditStore, MemoryStore};
pub use time::{Duration, Timestamp};
pub use timestamping::{TimestampAttestation, TimestampRequest, TimestampResponse};
pub use verify::verify_chain;
