//! Merkle root anchoring to external witness systems.
//!
//! A [`WitnessAnchor`] snapshots a chain's Merkle root, entry count and head
//! so that it can be published to an external witness (transparency log,
//! blockchain, RFC 3161 TSA, file store) for third-party proof of the chain
//! state at a point in time. The library builds and checks anchors; the
//! witness itself is the caller's [`WitnessBackend`].

use vstd::bytes::*;
use vstd::prelude::*;
use vstd::utf8::encode_utf8;

use crate::chain::AuditChain;
use crate::entry::{opt_text, uuid_v4_bytes};
use crate::error::LibroError;
use crate::hasher::{constant_time_eq, digest_hex, field_bytes, hash_field, ChainHasher, HASH_ALGORITHM};
use crate::merkle::{tree_root, MerkleTree};
use crate::text::{decimal, push_decimal, push_str, string_of};
use crate::time::Timestamp;

verus! {

/// A snapshot of a chain's Merkle root, ready to be anchored to a witness.
/// The anchor carries a hash over all its other fields.
#[derive(Clone, Debug, PartialEq, Eq)]
pub struct WitnessAnchor {
    /// Unique identifier for this anchor (a v4 UUID's bytes).
    pub id: [u8; 16],
    /// The Merkle root hash being anchored (hex-encoded).
    pub merkle_root: String,
    /// Number of entries covered by this Merkle tree.
    pub entry_count: usize,
    /// The chain head hash at the time of anchoring (hex-encoded).
    pub chain_head: String,
    /// Hash algorithm used.
    pub hash_algorithm: String,
    /// When the anchor was created.
    pub created_at: Timestamp,
    /// Hash of the previous anchor, for anchor chaining.
    pub prev_anchor_hash: Option<String>,
    /// This anchor's self-hash (covers all fields above).
    pub hash: String,
}

/// Receipt from a witness backend after publishing an anchor.
#[derive(Clone, Debug, PartialEq, Eq)]
pub struct WitnessReceipt {
    /// The anchor ID this receipt is for.
    pub anchor_id: [u8; 16],
    /// The witness backend identifier (e.g. "rfc3161", "transparency-log", "file").
    pub backend: String,
    /// When the receipt was obtained.
    pub received_at: Timestamp,
    /// Backend-specific receipt data, as compact JSON text (opaque here).
    pub receipt_data: String,
    /// Optional integrity hash of the receipt data.
    pub receipt_hash: Option<String>,
}

/// Result of verifying an anchor against a chain or Merkle tree.
#[derive(Clone, Debug, PartialEq, Eq)]
#[non_exhaustive]
pub enum AnchorVerification {
    /// The chain matches the anchor exactly.
    Valid,
    /// The Merkle root does not match.
    RootMismatch { expected: String, actual: String },
    /// The entry count does not match.
    CountMismatch { expected: usize, actual: usize },
    /// The chain head does not match.
    HeadMismatch { expected: String, actual: String },
}

/// A witness system that stores Merkle root anchors. Implemented by the
/// caller for its own witness; the library only builds and checks anchors.
pub trait WitnessBackend {
    /// Publish an anchor; a receipt proves the witness accepted it.
    fn publish(&self, anchor: &WitnessAnchor) -> crate::error::Result<WitnessReceipt>;

    /// Whether a receipt is still valid for the anchor (backend-specific).
    fn verify_receipt(&self, anchor: &WitnessAnchor, receipt: &WitnessReceipt) -> crate::error::Result<bool>;

    /// A human-readable identifier for this backend.
    fn backend_id(&self) -> &str;
}

/// The bytes an anchor's self-hash covers: the id's 16 bytes, then the
/// length-prefixed root, the entry count as 8 little-endian bytes, then the
/// length-prefixed head, algorithm, creation time (RFC 3339) and previous
/// anchor hash (empty when absent).
pub open spec fn anchor_input(a: WitnessAnchor) -> Seq<u8> {
    a.id@ + field_bytes(encode_utf8(a.merkle_root@)) + spec_u64_to_le_bytes(a.entry_count as u64)
        + field_bytes(encode_utf8(a.chain_head@)) + field_bytes(encode_utf8(a.hash_algorithm@))
        + field_bytes(encode_utf8(a.created_at.text())) + field_bytes(
        encode_utf8(opt_text(a.prev_anchor_hash)),
    )
}

/// The self-hash an anchor's fields call for.
pub open spec fn anchor_hash(a: WitnessAnchor) -> Seq<char> {
    digest_hex(anchor_input(a))
}

/// What checking an anchor against a tree with these leaves reports: a
/// count mismatch first, then a root mismatch, else valid.
pub open spec fn tree_verdict(a: WitnessAnchor, leaves: Seq<Seq<char>>, r: AnchorVerification) -> bool {
    if a.entry_count != leaves.len() {
        r matches AnchorVerification::CountMismatch { expected, actual } && expected
            == a.entry_count && actual == leaves.len()
    } else if a.merkle_root@ != tree_root(leaves) {
        r matches AnchorVerification::RootMismatch { expected, actual } && expected@
            == a.merkle_root@ && actual@ == tree_root(leaves)
    } else {
        r matches AnchorVerification::Valid
    }
}

/// The head of a chain, empty when it has no entries.
pub open spec fn head_text(chain: AuditChain) -> Seq<char> {
    if chain.entries_spec().len() > 0 {
        chain.entries_spec().last().hash@
    } else {
        Seq::empty()
    }
}

/// What checking an anchor against a tree and a chain reports: a head
/// mismatch first, then as [`tree_verdict`].
pub open spec fn chain_verdict(
    a: WitnessAnchor,
    leaves: Seq<Seq<char>>,
    head: Seq<char>,
    r: AnchorVerification,
) -> bool {
    if a.chain_head@ != head {
        r matches AnchorVerification::HeadMismatch { expected, actual } && expected@
            == a.chain_head@ && actual@ == head
    } else {
        tree_verdict(a, leaves, r)
    }
}

impl WitnessAnchor {
    /// An anchor for a tree and a chain: the tree's root and leaf count and
    /// the chain's head; `None` when the chain is empty.
    pub fn new(tree: &MerkleTree, chain: &AuditChain) -> (r: Option<Self>)
        ensures
            chain.entries_spec().len() == 0 <==> r is None,
            r matches Some(a) ==> {
                &&& a.merkle_root@ == tree_root(tree.leaves())
                &&& a.entry_count == tree.leaves().len()
                &&& a.chain_head@ == head_text(*chain)
                &&& a.hash_algorithm@ == HASH_ALGORITHM@
                &&& a.prev_anchor_hash is None
                &&& a.hash@ == anchor_hash(a)
            },
    {
        match chain.head_hash() {
            Some(h) => Some(Self::from_tree(tree, h)),
            None => None,
        }
    }

    /// An anchor for a tree and an explicitly given chain head.
    pub fn from_tree(tree: &MerkleTree, chain_head: &str) -> (a: Self)
        ensures
            a.merkle_root@ == tree_root(tree.leaves()),
            a.entry_count == tree.leaves().len(),
            a.chain_head@ == chain_head@,
            a.hash_algorithm@ == HASH_ALGORITHM@,
            a.prev_anchor_hash is None,
            a.hash@ == anchor_hash(a),
    {
        let mut anchor = WitnessAnchor {
            id: uuid_v4_bytes(),
            merkle_root: string_of(tree.root()),
            entry_count: tree.leaf_count(),
            chain_head: string_of(chain_head),
            hash_algorithm: string_of(HASH_ALGORITHM),
            created_at: Timestamp::now(),
            prev_anchor_hash: None,
            hash: String::new(),
        };
        anchor.hash = anchor.compute_hash();
        anchor
    }

    /// Chains this anchor to a previous one and recomputes the self-hash.
    pub fn with_prev_anchor(self, prev: &WitnessAnchor) -> (a: Self)
        ensures
            a.prev_anchor_hash matches Some(h) && h@ == prev.hash@,
            a.id == self.id,
            a.merkle_root == self.merkle_root,
            a.entry_count == self.entry_count,
            a.chain_head == self.chain_head,
            a.hash_algorithm == self.hash_algorithm,
            a.created_at == self.created_at,
            a.hash@ == anchor_hash(a),
    {
        let mut a = self;
        a.prev_anchor_hash = Some(prev.hash.clone());
        a.hash = a.compute_hash();
        a
    }

    /// Checks this anchor against a tree and a chain: the chain head, then
    /// the entry count, then the root.
    pub fn verify_against(&self, tree: &MerkleTree, chain: &AuditChain) -> (r: AnchorVerification)
        ensures
            chain_verdict(*self, tree.leaves(), head_text(*chain), r),
    {
        let actual_head = match chain.head_hash() {
            Some(h) => h,
            None => "",
        };
        proof {
            if chain.entries_spec().len() == 0 {
                assert(actual_head@ =~= Seq::<char>::empty()) by {
                    reveal_strlit("");
                }
            }
        }
        if !constant_time_eq(self.chain_head.as_str(), actual_head) {
            return AnchorVerification::HeadMismatch {
                expected: self.chain_head.clone(),
                actual: string_of(actual_head),
            };
        }
        self.verify_against_tree(tree)
    }

    /// Checks this anchor against a tree: the entry count, then the root.
    pub fn verify_against_tree(&self, tree: &MerkleTree) -> (r: AnchorVerification)
        ensures
            tree_verdict(*self, tree.leaves(), r),
    {
        let count = tree.leaf_count();
        if self.entry_count != count {
            return AnchorVerification::CountMismatch { expected: self.entry_count, actual: count };
        }
        let root = tree.root();
        if !constant_time_eq(self.merkle_root.as_str(), root) {
            return AnchorVerification::RootMismatch {
                expected: self.merkle_root.clone(),
                actual: string_of(root),
            };
        }
        AnchorVerification::Valid
    }

    /// A copy of this anchor.
    pub fn duplicate(&self) -> (a: Self)
        ensures
            a == *self,
    {
        WitnessAnchor {
            id: self.id,
            merkle_root: self.merkle_root.clone(),
            entry_count: self.entry_count,
            chain_head: self.chain_head.clone(),
            hash_algorithm: self.hash_algorithm.clone(),
            created_at: self.created_at,
            prev_anchor_hash: match &self.prev_anchor_hash {
                Some(h) => Some(h.clone()),
                None => None,
            },
            hash: self.hash.clone(),
        }
    }

    /// Whether the stored self-hash matches the anchor's fields.
    pub fn verify_integrity(&self) -> (r: bool)
        ensures
            r == (self.hash@ == anchor_hash(*self)),
    {
        let h = self.compute_hash();
        constant_time_eq(self.hash.as_str(), h.as_str())
    }

    /// The self-hash the anchor's fields call for.
    pub fn compute_hash(&self) -> (h: String)
        ensures
            h@ == anchor_hash(*self),
    {
        let mut hasher = ChainHasher::new();
        hasher.update(self.id.as_slice());
        hash_field(&mut hasher, self.merkle_root.as_str().as_bytes());
        let count = u64_to_le_bytes(self.entry_count as u64);
        hasher.update(count.as_slice());
        hash_field(&mut hasher, self.chain_head.as_str().as_bytes());
        hash_field(&mut hasher, self.hash_algorithm.as_str().as_bytes());
        let ts = self.created_at.to_rfc3339();
        hash_field(&mut hasher, ts.as_str().as_bytes());
        let prev: &str = match &self.prev_anchor_hash {
            Some(p) => p.as_str(),
            None => "",
        };
        proof {
            if self.prev_anchor_hash is None {
                assert(prev@ =~= opt_text(self.prev_anchor_hash)) by {
                    reveal_strlit("");
                }
            }
        }
        hash_field(&mut hasher, prev.as_bytes());
        assert(hasher@ =~= anchor_input(*self));
        hasher.finalize_hex()
    }
}

/// The bytes a receipt's integrity hash covers: the anchor id's 16 bytes,
/// then the length-prefixed backend name and receipt data.
pub open spec fn receipt_input(r: WitnessReceipt) -> Seq<u8> {
    r.anchor_id@ + field_bytes(encode_utf8(r.backend@)) + field_bytes(encode_utf8(r.receipt_data@))
}

impl WitnessReceipt {
    /// A receipt for a custom backend, received now, without a hash.
    pub fn new(anchor_id: [u8; 16], backend: &str, receipt_data: &str) -> (r: Self)
        ensures
            r.anchor_id == anchor_id,
            r.backend@ == backend@,
            r.receipt_data@ == receipt_data@,
            r.receipt_hash is None,
    {
        WitnessReceipt {
            anchor_id,
            backend: string_of(backend),
            received_at: Timestamp::now(),
            receipt_data: string_of(receipt_data),
            receipt_hash: None,
        }
    }

    /// Adds an integrity hash over the anchor id, backend and receipt data.
    pub fn with_hash(self) -> (r: Self)
        ensures
            r.anchor_id == self.anchor_id,
            r.backend == self.backend,
            r.received_at == self.received_at,
            r.receipt_data == self.receipt_data,
            r.receipt_hash matches Some(h) && h@ == digest_hex(receipt_input(self)),
    {
        let mut hasher = ChainHasher::new();
        hasher.update(self.anchor_id.as_slice());
        hash_field(&mut hasher, self.backend.as_str().as_bytes());
        hash_field(&mut hasher, self.receipt_data.as_str().as_bytes());
        assert(hasher@ =~= receipt_input(self));
        let h = hasher.finalize_hex();
        let mut r = self;
        r.receipt_hash = Some(h);
        r
    }
}

/// The text of a verification result.
pub open spec fn verification_text(v: AnchorVerification) -> Seq<char> {
    match v {
        AnchorVerification::Valid => "valid"@,
        AnchorVerification::RootMismatch { expected, actual } => "root mismatch: expected "@
            + expected@ + ", got "@ + actual@,
        AnchorVerification::CountMismatch { expected, actual } => "count mismatch: expected "@
            + decimal(expected as nat) + ", got "@ + decimal(actual as nat),
        AnchorVerification::HeadMismatch { expected, actual } => "head mismatch: expected "@
            + expected@ + ", got "@ + actual@,
    }
}

impl AnchorVerification {
    /// Whether the verification passed.
    pub fn is_valid(&self) -> (r: bool)
        ensures
            r == (self matches AnchorVerification::Valid),
    {
        match self {
            AnchorVerification::Valid => true,
            _ => false,
        }
    }

    /// The result as text, e.g. `count mismatch: expected 5, got 3`.
    pub fn message(&self) -> (s: String)
        ensures
            s@ == verification_text(*self),
    {
        match self {
            AnchorVerification::Valid => string_of("valid"),
            AnchorVerification::RootMismatch { expected, actual } => {
                let mut s = string_of("root mismatch: expected ");
                push_str(&mut s, expected.as_str());
                push_str(&mut s, ", got ");
                push_str(&mut s, actual.as_str());
                s
            },
            AnchorVerification::CountMismatch { expected, actual } => {
                let mut s = string_of("count mismatch: expected ");
                push_decimal(&mut s, *expected as u64);
                push_str(&mut s, ", got ");
                push_decimal(&mut s, *actual as u64);
                s
            },
            AnchorVerification::HeadMismatch { expected, actual } => {
                let mut s = string_of("head mismatch: expected ");
                push_str(&mut s, expected.as_str());
                push_str(&mut s, ", got ");
                push_str(&mut s, actual.as_str());
                s
            },
        }
    }
}

/// An anchor made from a tree and a chain verifies against that same tree
/// and chain, and passes its own integrity check.
pub proof fn lemma_fresh_anchor_verifies(
    a: WitnessAnchor,
    leaves: Seq<Seq<char>>,
    head: Seq<char>,
    r: AnchorVerification,
)
    requires
        a.merkle_root@ == tree_root(leaves),
        a.entry_count == leaves.len(),
        a.chain_head@ == head,
        chain_verdict(a, leaves, head, r),
    ensures
        r matches AnchorVerification::Valid,
{
}

/// The parts of an anchor's hash input, in order.
spec fn anchor_parts(a: WitnessAnchor) -> Seq<Seq<u8>> {
    seq![
        a.id@,
        field_bytes(encode_utf8(a.merkle_root@)),
        spec_u64_to_le_bytes(a.entry_count as u64),
        field_bytes(encode_utf8(a.chain_head@)),
        field_bytes(encode_utf8(a.hash_algorithm@)),
        field_bytes(encode_utf8(a.created_at.text())),
        field_bytes(encode_utf8(opt_text(a.prev_anchor_hash))),
    ]
}

#[verifier::spinoff_prover]
#[verifier::rlimit(40)]
proof fn lemma_anchor_input_parts(a: WitnessAnchor)
    ensures
        anchor_input(a) == anchor_parts(a).flatten(),
{
    reveal_with_fuel(Seq::flatten, 8);
    assert(anchor_input(a) =~= anchor_parts(a).flatten());
}

/// Different texts make different length-prefixed fields.
proof fn lemma_text_field_injective(s: Seq<char>, t: Seq<char>)
    requires
        s != t,
    ensures
        field_bytes(encode_utf8(s)) != field_bytes(encode_utf8(t)),
{
    lemma_auto_spec_u64_to_from_le_bytes();
    let x = encode_utf8(s);
    let y = encode_utf8(t);
    crate::text::lemma_utf8_injective(s, t);
    if x.len() == y.len() {
        crate::text::lemma_differ_in_middle(
            spec_u64_to_le_bytes(x.len() as u64),
            x,
            y,
            Seq::<u8>::empty(),
        );
        assert(field_bytes(x) =~= spec_u64_to_le_bytes(x.len() as u64) + x + Seq::<u8>::empty());
        assert(field_bytes(y) =~= spec_u64_to_le_bytes(x.len() as u64) + y + Seq::<u8>::empty());
    } else {
        assert(field_bytes(x).len() != field_bytes(y).len());
    }
}

/// Anchors whose hash parts differ at `k` only have different hash inputs.
proof fn lemma_anchor_part_differs(a: WitnessAnchor, b: WitnessAnchor, k: int)
    requires
        0 <= k < 7,
        anchor_parts(a)[k] != anchor_parts(b)[k],
        forall|j: int| 0 <= j < 7 && j != k ==> anchor_parts(a)[j] == anchor_parts(b)[j],
    ensures
        anchor_input(a) != anchor_input(b),
{
    lemma_anchor_input_parts(a);
    lemma_anchor_input_parts(b);
    crate::entry::lemma_flatten_differs_at(anchor_parts(a), anchor_parts(b), k);
}

/// An anchor's self-hash covers every field: two anchors that agree on all
/// hashed fields but one (the id, the Merkle root, the entry count, the
/// chain head, the hash algorithm, the creation time's text or the previous
/// anchor's hash text) and differ in that one have different hash inputs,
/// so an anchor with one field altered passes its integrity check only
/// through a SHA-256 collision.
pub proof fn lemma_anchor_hash_covers_every_field(a: WitnessAnchor, b: WitnessAnchor)
    ensures
        a.id@ != b.id@ && a.merkle_root == b.merkle_root && a.entry_count == b.entry_count
            && a.chain_head == b.chain_head && a.hash_algorithm == b.hash_algorithm
            && a.created_at == b.created_at && a.prev_anchor_hash == b.prev_anchor_hash
            ==> anchor_input(a) != anchor_input(b),
        a.id == b.id && a.merkle_root@ != b.merkle_root@ && a.entry_count == b.entry_count
            && a.chain_head == b.chain_head && a.hash_algorithm == b.hash_algorithm
            && a.created_at == b.created_at && a.prev_anchor_hash == b.prev_anchor_hash
            ==> anchor_input(a) != anchor_input(b),
        a.id == b.id && a.merkle_root == b.merkle_root && a.entry_count != b.entry_count
            && a.chain_head == b.chain_head && a.hash_algorithm == b.hash_algorithm
            && a.created_at == b.created_at && a.prev_anchor_hash == b.prev_anchor_hash
            ==> anchor_input(a) != anchor_input(b),
        a.id == b.id && a.merkle_root == b.merkle_root && a.entry_count == b.entry_count
            && a.chain_head@ != b.chain_head@ && a.hash_algorithm == b.hash_algorithm
            && a.created_at == b.created_at && a.prev_anchor_hash == b.prev_anchor_hash
            ==> anchor_input(a) != anchor_input(b),
        a.id == b.id && a.merkle_root == b.merkle_root && a.entry_count == b.entry_count
            && a.chain_head == b.chain_head && a.hash_algorithm@ != b.hash_algorithm@
            && a.created_at == b.created_at && a.prev_anchor_hash == b.prev_anchor_hash
            ==> anchor_input(a) != anchor_input(b),
        a.id == b.id && a.merkle_root == b.merkle_root && a.entry_count == b.entry_count
            && a.chain_head == b.chain_head && a.hash_algorithm == b.hash_algorithm
            && a.created_at.text() != b.created_at.text() && a.prev_anchor_hash
            == b.prev_anchor_hash ==> anchor_input(a) != anchor_input(b),
        a.id == b.id && a.merkle_root == b.merkle_root && a.entry_count == b.entry_count
            && a.chain_head == b.chain_head && a.hash_algorithm == b.hash_algorithm
            && a.created_at == b.created_at && opt_text(a.prev_anchor_hash) != opt_text(
            b.prev_anchor_hash,
        ) ==> anchor_input(a) != anchor_input(b),
{
    lemma_auto_spec_u64_to_from_le_bytes();
    let same_rest = a.merkle_root == b.merkle_root && a.entry_count == b.entry_count
        && a.chain_head == b.chain_head && a.hash_algorithm == b.hash_algorithm && a.created_at
        == b.created_at && a.prev_anchor_hash == b.prev_anchor_hash;
    if a.id@ != b.id@ && same_rest {
        lemma_anchor_part_differs(a, b, 0);
    }
    if a.id == b.id && a.merkle_root@ != b.merkle_root@ && a.entry_count == b.entry_count
        && a.chain_head == b.chain_head && a.hash_algorithm == b.hash_algorithm && a.created_at
        == b.created_at && a.prev_anchor_hash == b.prev_anchor_hash {
        lemma_text_field_injective(a.merkle_root@, b.merkle_root@);
        lemma_anchor_part_differs(a, b, 1);
    }
    if a.id == b.id && a.merkle_root == b.merkle_root && a.entry_count != b.entry_count
        && a.chain_head == b.chain_head && a.hash_algorithm == b.hash_algorithm && a.created_at
        == b.created_at && a.prev_anchor_hash == b.prev_anchor_hash {
        assert(spec_u64_from_le_bytes(spec_u64_to_le_bytes(a.entry_count as u64))
            == a.entry_count as u64);
        assert(spec_u64_from_le_bytes(spec_u64_to_le_bytes(b.entry_count as u64))
            == b.entry_count as u64);
        lemma_anchor_part_differs(a, b, 2);
    }
    if a.id == b.id && a.merkle_root == b.merkle_root && a.entry_count == b.entry_count
        && a.chain_head@ != b.chain_head@ && a.hash_algorithm == b.hash_algorithm && a.created_at
        == b.created_at && a.prev_anchor_hash == b.prev_anchor_hash {
        lemma_text_field_injective(a.chain_head@, b.chain_head@);
        lemma_anchor_part_differs(a, b, 3);
    }
    if a.id == b.id && a.merkle_root == b.merkle_root && a.entry_count == b.entry_count
        && a.chain_head == b.chain_head && a.hash_algorithm@ != b.hash_algorithm@ && a.created_at
        == b.created_at && a.prev_anchor_hash == b.prev_anchor_hash {
        lemma_text_field_injective(a.hash_algorithm@, b.hash_algorithm@);
        lemma_anchor_part_differs(a, b, 4);
    }
    if a.id == b.id && a.merkle_root == b.merkle_root && a.entry_count == b.entry_count
        && a.chain_head == b.chain_head && a.hash_algorithm == b.hash_algorithm
        && a.created_at.text() != b.created_at.text() && a.prev_anchor_hash == b.prev_anchor_hash {
        lemma_text_field_injective(a.created_at.text(), b.created_at.text());
        lemma_anchor_part_differs(a, b, 5);
    }
    if a.id == b.id && a.merkle_root == b.merkle_root && a.entry_count == b.entry_count
        && a.chain_head == b.chain_head && a.hash_algorithm == b.hash_algorithm && a.created_at
        == b.created_at && opt_text(a.prev_anchor_hash) != opt_text(b.prev_anchor_hash) {
        lemma_text_field_injective(opt_text(a.prev_anchor_hash), opt_text(b.prev_anchor_hash));
        lemma_anchor_part_differs(a, b, 6);
    }
}

} // verus!
