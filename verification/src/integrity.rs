//! Integrity proof bundles for independent auditor verification.
//!
//! An [`IntegrityProof`] holds a (signed) Merkle tree head, the entries,
//! inclusion proofs, and optionally a consistency proof and a witness
//! anchor: everything an auditor needs to check the chain without access
//! to it or to its storage.

use vstd::prelude::*;
use vstd::utf8::encode_utf8;

use crate::anchoring::{anchor_hash, WitnessAnchor};
use crate::chain::AuditChain;
use crate::entry::AuditEntry;
use crate::hasher::{
    constant_time_eq, hex_decode, hex_decode_spec, hex_encode, hex_spec, lemma_hex_decode_encode,
};
use crate::consistency::lemma_generated_consistency_verifies;
use crate::merkle::{
    consistency_holds, fold_path, inclusion_path, lemma_generated_proofs_verify, mth, path_view,
    subproof_spec, texts, tree_root, verify_consistency, verify_proof, ConsistencyProof, MerkleProof,
    MerkleTree,
};
use crate::signing::{ed25519_public_spec, ed25519_sign_spec, ed25519_verify_spec, SigningKey, VerifyingKey};
use crate::text::string_of;
use crate::time::Timestamp;
use crate::verify::chain_sound;

verus! {

/// A signed Merkle tree head: commits to the chain state at a point in time.
#[derive(Clone, Debug, PartialEq, Eq)]
pub struct SignedTreeHead {
    /// The Merkle root hash (hex-encoded).
    pub root: String,
    /// Number of entries in the tree.
    pub tree_size: usize,
    /// When the tree head was signed.
    pub timestamp: Timestamp,
    /// Hex-encoded signature over the root's bytes (empty when unsigned).
    pub signature: String,
    /// Hex-encoded verifying (public) key (empty when unsigned).
    pub verifying_key: String,
    /// The signature algorithm used (e.g. "ed25519").
    pub algorithm: Option<String>,
}

/// A self-contained integrity proof bundle for independent verification.
#[derive(Clone, Debug, PartialEq, Eq)]
pub struct IntegrityProof {
    /// The signed Merkle tree head.
    pub tree_head: SignedTreeHead,
    /// RFC 9162 consistency proof from a previous tree size (if any).
    pub consistency: Option<ConsistencyProof>,
    /// Inclusion proofs for selected entries.
    pub inclusions: Vec<MerkleProof>,
    /// Previous witness anchor (if any).
    pub anchor: Option<WitnessAnchor>,
    /// The audit entries covered by this proof.
    pub entries: Vec<AuditEntry>,
}

/// Detailed verification results for an [`IntegrityProof`].
#[derive(Clone, Copy, Debug, PartialEq, Eq, Structural)]
#[non_exhaustive]
pub struct ProofVerification {
    /// Whether the tree head signature is valid.
    pub tree_head_valid: bool,
    /// Whether all entries verify individually and chain correctly.
    pub entries_valid: bool,
    /// Whether the Merkle tree built from entries matches the signed root.
    pub tree_matches: bool,
    /// Whether all inclusion proofs are valid.
    pub inclusions_valid: bool,
    /// Whether the consistency proof is valid (if present).
    pub consistency_valid: Option<bool>,
    /// Whether the anchor integrity check passes (if present).
    pub anchor_valid: Option<bool>,
}

/// Whether every check of a verification result passed (an absent check
/// passes).
pub open spec fn all_passed(v: ProofVerification) -> bool {
    &&& v.tree_head_valid
    &&& v.entries_valid
    &&& v.tree_matches
    &&& v.inclusions_valid
    &&& (v.consistency_valid matches Some(c) ==> c)
    &&& (v.anchor_valid matches Some(a) ==> a)
}

impl ProofVerification {
    /// Whether all checks passed.
    pub fn is_valid(&self) -> (r: bool)
        ensures
            r == all_passed(*self),
    {
        self.tree_head_valid && self.entries_valid && self.tree_matches && self.inclusions_valid
            && match self.consistency_valid {
            Some(c) => c,
            None => true,
        } && match self.anchor_valid {
            Some(a) => a,
            None => true,
        }
    }
}

/// The leaf hashes of a list of entries.
pub open spec fn entry_hashes(s: Seq<AuditEntry>) -> Seq<Seq<char>> {
    s.map_values(|e: AuditEntry| e.hash@)
}

/// Whether an inclusion proof checks out against a tree head root: its path
/// leads from its leaf to its root, and that root is the head's.
pub open spec fn inclusion_ok(p: MerkleProof, root: Seq<char>) -> bool {
    fold_path(p.leaf_hash@, path_view(p.path@)) == p.root@ && p.root@ == root
}

/// What verifying a proof bundle reports, given the verdict on the tree
/// head's signature.
pub open spec fn verdict(p: IntegrityProof, head_ok: bool) -> ProofVerification {
    let leaves = entry_hashes(p.entries@);
    ProofVerification {
        tree_head_valid: head_ok,
        entries_valid: chain_sound(p.entries@),
        tree_matches: if leaves.len() > 0 {
            tree_root(leaves) == p.tree_head.root@ && leaves.len() == p.tree_head.tree_size
        } else {
            p.tree_head.tree_size == 0
        },
        inclusions_valid: forall|i: int|
            0 <= i < p.inclusions@.len() ==> #[trigger] inclusion_ok(
                p.inclusions@[i],
                p.tree_head.root@,
            ),
        consistency_valid: match p.consistency {
            Some(c) => Some(consistency_holds(c) && leaves.len() > 0 && c.new_root@ == mth(leaves)),
            None => None,
        },
        anchor_valid: match p.anchor {
            Some(a) => Some(a.hash@ == anchor_hash(a)),
            None => None,
        },
    }
}

/// Whether the tree head's signature is accepted under `public`: its hex
/// decodes (no bytes where it does not) to a 64-byte Ed25519 signature of
/// the root's UTF-8 bytes.
pub open spec fn head_signature_ok(head: SignedTreeHead, public: Seq<u8>) -> bool {
    let sig = match hex_decode_spec(encode_utf8(head.signature@)) {
        Some(b) => b,
        None => Seq::empty(),
    };
    sig.len() == 64 && ed25519_verify_spec(public, encode_utf8(head.root@), sig)
}

/// Builder for constructing an [`IntegrityProof`].
pub struct ProofBuilder<'a> {
    chain: &'a AuditChain,
    tree: MerkleTree,
    tree_head: SignedTreeHead,
    consistency: Option<ConsistencyProof>,
    inclusions: Vec<MerkleProof>,
    anchor: Option<WitnessAnchor>,
}

impl<'a> ProofBuilder<'a> {
    /// The entries the proof will cover.
    pub closed spec fn entries_spec(&self) -> Seq<AuditEntry> {
        self.chain.entries_spec()
    }

    /// The tree head so far.
    pub closed spec fn head_spec(&self) -> SignedTreeHead {
        self.tree_head
    }

    /// The consistency proof so far.
    pub closed spec fn consistency_spec(&self) -> Option<ConsistencyProof> {
        self.consistency
    }

    /// The inclusion proofs so far.
    pub closed spec fn inclusions_spec(&self) -> Seq<MerkleProof> {
        self.inclusions@
    }

    /// The anchor so far.
    pub closed spec fn anchor_spec(&self) -> Option<WitnessAnchor> {
        self.anchor
    }

    /// Whether the builder's tree is the tree over its entries' hashes.
    pub closed spec fn well_formed(&self) -> bool {
        self.tree.leaves() == entry_hashes(self.chain.entries_spec())
    }
}

/// Whether `p` is the inclusion proof that the tree over `leaves` gives
/// for some leaf.
pub open spec fn generated_inclusion(p: MerkleProof, leaves: Seq<Seq<char>>) -> bool {
    &&& 0 <= p.index < leaves.len()
    &&& p.leaf_hash@ == leaves[p.index as int]
    &&& path_view(p.path@) == inclusion_path(leaves, p.index as int)
    &&& p.root@ == tree_root(leaves)
}

/// Whether `c` is the consistency proof that the tree over `leaves` gives
/// for some old size.
pub open spec fn generated_consistency(c: ConsistencyProof, leaves: Seq<Seq<char>>) -> bool {
    &&& 1 <= c.old_size <= leaves.len()
    &&& c.new_size == leaves.len()
    &&& c.old_root@ == mth(leaves.take(c.old_size as int))
    &&& c.new_root@ == mth(leaves)
    &&& texts(c.path@) == if c.old_size == leaves.len() {
        Seq::<Seq<char>>::empty()
    } else {
        subproof_spec(leaves, c.old_size as nat, 0, leaves.len(), true)
    }
}

impl IntegrityProof {
    /// A proof builder whose tree head is signed by `signer`: the
    /// signature covers the UTF-8 bytes of the Merkle root. `None` for an
    /// empty chain.
    pub fn builder<'a>(chain: &'a AuditChain, signer: &SigningKey) -> (r: Option<ProofBuilder<'a>>)
        ensures
            chain.entries_spec().len() == 0 <==> r is None,
            r matches Some(b) ==> {
                &&& b.well_formed()
                &&& b.entries_spec() == chain.entries_spec()
                &&& b.head_spec().root@ == tree_root(entry_hashes(chain.entries_spec()))
                &&& b.head_spec().tree_size == chain.entries_spec().len()
                &&& b.head_spec().signature@ == hex_spec(
                    ed25519_sign_spec(
                        signer.secret_spec(),
                        encode_utf8(tree_root(entry_hashes(chain.entries_spec()))),
                    ),
                )
                &&& b.head_spec().verifying_key@ == hex_spec(
                    ed25519_public_spec(signer.secret_spec()),
                )
                &&& b.head_spec().algorithm matches Some(a) && a@ == "ed25519"@
                &&& head_signature_ok(b.head_spec(), ed25519_public_spec(signer.secret_spec()))
                &&& b.consistency_spec() is None
                &&& b.inclusions_spec().len() == 0
                &&& b.anchor_spec() is None
            },
    {
        let tree = match MerkleTree::build(chain.entries()) {
            Some(t) => t,
            None => {
                return None;
            },
        };
        let root = string_of(tree.root());
        let sig_bytes = signer.sign_bytes(root.as_str().as_bytes());
        proof {
            lemma_hex_decode_encode(sig_bytes@);
        }
        let vk = signer.verifying_key_bytes();
        let tree_head = SignedTreeHead {
            root,
            tree_size: tree.leaf_count(),
            timestamp: Timestamp::now(),
            signature: hex_encode(sig_bytes.as_slice()),
            verifying_key: hex_encode(vk.as_slice()),
            algorithm: Some(string_of(signer.algorithm())),
        };
        Some(
            ProofBuilder {
                chain,
                tree,
                tree_head,
                consistency: None,
                inclusions: Vec::new(),
                anchor: None,
            },
        )
    }

    /// A proof builder with an unsigned tree head (empty signature and
    /// verifying key, no algorithm). `None` for an empty chain.
    pub fn builder_unsigned(chain: &AuditChain) -> (r: Option<ProofBuilder<'_>>)
        ensures
            chain.entries_spec().len() == 0 <==> r is None,
            r matches Some(b) ==> {
                &&& b.well_formed()
                &&& b.entries_spec() == chain.entries_spec()
                &&& b.head_spec().root@ == tree_root(entry_hashes(chain.entries_spec()))
                &&& b.head_spec().tree_size == chain.entries_spec().len()
                &&& b.head_spec().signature@.len() == 0
                &&& b.head_spec().verifying_key@.len() == 0
                &&& b.head_spec().algorithm is None
                &&& b.consistency_spec() is None
                &&& b.inclusions_spec().len() == 0
                &&& b.anchor_spec() is None
            },
    {
        let tree = match MerkleTree::build(chain.entries()) {
            Some(t) => t,
            None => {
                return None;
            },
        };
        let tree_head = SignedTreeHead {
            root: string_of(tree.root()),
            tree_size: tree.leaf_count(),
            timestamp: Timestamp::now(),
            signature: String::new(),
            verifying_key: String::new(),
            algorithm: None,
        };
        Some(
            ProofBuilder {
                chain,
                tree,
                tree_head,
                consistency: None,
                inclusions: Vec::new(),
                anchor: None,
            },
        )
    }

    /// Verify this bundle, checking the tree head's signature under
    /// `verifier` (a signature that is not hex counts as no bytes).
    pub fn verify(&self, verifier: &VerifyingKey) -> (r: ProofVerification)
        ensures
            r == verdict(*self, head_signature_ok(self.tree_head, verifier.bytes_spec())),
    {
        let sig_bytes = match hex_decode(self.tree_head.signature.as_str()) {
            Some(b) => b,
            None => Vec::new(),
        };
        let head_ok = verifier.verify_bytes(
            self.tree_head.root.as_str().as_bytes(),
            sig_bytes.as_slice(),
        );
        self.verify_common(head_ok)
    }

    /// Verify this bundle without checking a signature.
    pub fn verify_unsigned(&self) -> (r: ProofVerification)
        ensures
            r == verdict(*self, true),
    {
        self.verify_common(true)
    }

    /// Every check but the signature's: entries, tree, inclusion proofs,
    /// consistency proof and anchor.
    fn verify_common(&self, tree_head_valid: bool) -> (r: ProofVerification)
        ensures
            r == verdict(*self, tree_head_valid),
    {
        let entries_valid = self.verify_entries();
        let rebuilt = MerkleTree::build(self.entries.as_slice());
        let ghost leaves = entry_hashes(self.entries@);
        let tree_matches = match &rebuilt {
            Some(tree) => constant_time_eq(tree.root(), self.tree_head.root.as_str())
                && tree.leaf_count() == self.tree_head.tree_size,
            None => self.entries.len() == 0 && self.tree_head.tree_size == 0,
        };
        let n = self.inclusions.len();
        let mut inclusions_valid = true;
        for i in 0..n
            invariant
                n == self.inclusions@.len(),
                inclusions_valid == forall|j: int|
                    0 <= j < i ==> #[trigger] inclusion_ok(
                        self.inclusions@[j],
                        self.tree_head.root@,
                    ),
        {
            let p = &self.inclusions[i];
            let ok = verify_proof(p) && constant_time_eq(p.root.as_str(), self.tree_head.root.as_str());
            proof {
                assert(ok == inclusion_ok(self.inclusions@[i as int], self.tree_head.root@));
                if !inclusions_valid {
                    let j = choose|j: int|
                        0 <= j < i && !#[trigger] inclusion_ok(
                            self.inclusions@[j],
                            self.tree_head.root@,
                        );
                    assert(!inclusion_ok(self.inclusions@[j], self.tree_head.root@));
                }
            }
            inclusions_valid = inclusions_valid && ok;
        }
        let consistency_valid = match &self.consistency {
            Some(c) => {
                if !verify_consistency(c) {
                    Some(false)
                } else {
                    match &rebuilt {
                        Some(tree) => match tree.canonical_root(tree.leaf_count()) {
                            Some(canonical) => {
                                proof {
                                    assert(tree.leaves().take(tree.leaves().len() as int)
                                        =~= tree.leaves());
                                }
                                Some(constant_time_eq(c.new_root.as_str(), canonical.as_str()))
                            },
                            None => Some(false),
                        },
                        None => Some(false),
                    }
                }
            },
            None => None,
        };
        let anchor_valid = match &self.anchor {
            Some(a) => Some(a.verify_integrity()),
            None => None,
        };
        ProofVerification {
            tree_head_valid,
            entries_valid,
            tree_matches,
            inclusions_valid,
            consistency_valid,
            anchor_valid,
        }
    }

    /// Whether every entry is sealed and linked to its predecessor.
    fn verify_entries(&self) -> (r: bool)
        ensures
            r == chain_sound(self.entries@),
    {
        crate::verify::verify_chain(self.entries.as_slice()).is_ok()
    }
}

impl<'a> ProofBuilder<'a> {
    /// Add an RFC 9162 consistency proof from a previous tree size (none
    /// when the size is 0 or larger than the tree).
    pub fn with_consistency_from(self, old_size: usize) -> (b: Self)
        requires
            self.well_formed(),
        ensures
            b.well_formed(),
            b.entries_spec() == self.entries_spec(),
            b.head_spec() == self.head_spec(),
            b.inclusions_spec() == self.inclusions_spec(),
            b.anchor_spec() == self.anchor_spec(),
            (old_size == 0 || old_size > self.entries_spec().len()) <==> b.consistency_spec() is None,
            b.consistency_spec() matches Some(c) ==> c.old_size == old_size && generated_consistency(
                c,
                entry_hashes(self.entries_spec()),
            ),
    {
        let mut b = self;
        b.consistency = b.tree.consistency_proof(old_size);
        b
    }

    /// Include a witness anchor from a previous state.
    pub fn with_anchor(self, anchor: &WitnessAnchor) -> (b: Self)
        requires
            self.well_formed(),
        ensures
            b.well_formed(),
            b.entries_spec() == self.entries_spec(),
            b.head_spec() == self.head_spec(),
            b.inclusions_spec() == self.inclusions_spec(),
            b.consistency_spec() == self.consistency_spec(),
            b.anchor_spec() == Some(*anchor),
    {
        let mut b = self;
        b.anchor = Some(anchor.duplicate());
        b
    }

    /// Add an inclusion proof for the entry at `index` (nothing when the
    /// index is out of range).
    pub fn with_inclusion(self, index: usize) -> (b: Self)
        requires
            self.well_formed(),
        ensures
            b.well_formed(),
            b.entries_spec() == self.entries_spec(),
            b.head_spec() == self.head_spec(),
            b.consistency_spec() == self.consistency_spec(),
            b.anchor_spec() == self.anchor_spec(),
            index >= self.entries_spec().len() ==> b.inclusions_spec() == self.inclusions_spec(),
            index < self.entries_spec().len() ==> {
                &&& b.inclusions_spec().len() == self.inclusions_spec().len() + 1
                &&& b.inclusions_spec().drop_last() == self.inclusions_spec()
                &&& b.inclusions_spec().last().index == index
                &&& generated_inclusion(
                    b.inclusions_spec().last(),
                    entry_hashes(self.entries_spec()),
                )
            },
    {
        let mut b = self;
        match b.tree.inclusion_proof(index) {
            Some(p) => {
                let ghost before = b.inclusions@;
                b.inclusions.push(p);
                assert(b.inclusions@.drop_last() =~= before);
            },
            None => {},
        }
        b
    }

    /// Add inclusion proofs for all entries, in entry order.
    pub fn with_all_inclusions(self) -> (b: Self)
        requires
            self.well_formed(),
        ensures
            b.well_formed(),
            b.entries_spec() == self.entries_spec(),
            b.head_spec() == self.head_spec(),
            b.consistency_spec() == self.consistency_spec(),
            b.anchor_spec() == self.anchor_spec(),
            b.inclusions_spec().len() == self.inclusions_spec().len() + self.entries_spec().len(),
            b.inclusions_spec().take(self.inclusions_spec().len() as int) == self.inclusions_spec(),
            forall|i: int|
                0 <= i < self.entries_spec().len() ==> {
                    &&& (#[trigger] b.inclusions_spec()[self.inclusions_spec().len() + i]).index
                        == i
                    &&& generated_inclusion(
                        b.inclusions_spec()[self.inclusions_spec().len() + i],
                        entry_hashes(self.entries_spec()),
                    )
                },
    {
        let mut b = self;
        let ghost start = b.inclusions@;
        let ghost leaves = b.tree.leaves();
        let ghost e0 = b.entries_spec();
        let ghost h0 = b.head_spec();
        let ghost c0 = b.consistency_spec();
        let ghost a0 = b.anchor_spec();
        let n = b.tree.leaf_count();
        for i in 0..n
            invariant
                b.well_formed(),
                b.entries_spec() == e0,
                b.head_spec() == h0,
                b.consistency_spec() == c0,
                b.anchor_spec() == a0,
                leaves == entry_hashes(e0),
                n == leaves.len(),
                leaves == b.tree.leaves(),
                b.inclusions@.len() == start.len() + i,
                b.inclusions@.take(start.len() as int) == start,
                forall|j: int|
                    0 <= j < i ==> {
                        &&& (#[trigger] b.inclusions@[start.len() + j]).index == j
                        &&& generated_inclusion(b.inclusions@[start.len() + j], leaves)
                    },
        {
            match b.tree.inclusion_proof(i) {
                Some(p) => {
                    let ghost before = b.inclusions@;
                    b.inclusions.push(p);
                    assert(b.inclusions@.take(start.len() as int) =~= before.take(
                        start.len() as int,
                    ));
                },
                None => {},
            }
        }
        b
    }

    /// Build the integrity proof, consuming this builder.
    pub fn build(self) -> (p: IntegrityProof)
        ensures
            p.tree_head == self.head_spec(),
            p.consistency == self.consistency_spec(),
            p.inclusions@ == self.inclusions_spec(),
            p.anchor == self.anchor_spec(),
            p.entries@ == self.entries_spec(),
    {
        let src = self.chain.entries();
        let mut entries: Vec<AuditEntry> = Vec::new();
        let n = src.len();
        for i in 0..n
            invariant
                n == src@.len(),
                entries@ == src@.take(i as int),
        {
            entries.push(src[i].duplicate());
            assert(src@.take(i + 1) =~= src@.take(i as int).push(src@[i as int]));
        }
        assert(src@.take(n as int) =~= src@);
        IntegrityProof {
            tree_head: self.tree_head,
            consistency: self.consistency,
            inclusions: self.inclusions,
            anchor: self.anchor,
            entries,
        }
    }
}

/// A bundle assembled from a sound, non-empty chain, whose head carries
/// the root and size of the tree over its entries, whose inclusion and
/// consistency proofs are ones that tree generated, and whose anchor
/// carries its own hash, passes every check but the signature's: it is
/// valid exactly when the head's signature is.
pub proof fn lemma_generated_bundle_verifies(p: IntegrityProof, head_ok: bool)
    requires
        p.entries@.len() > 0,
        chain_sound(p.entries@),
        p.tree_head.root@ == tree_root(entry_hashes(p.entries@)),
        p.tree_head.tree_size == p.entries@.len(),
        forall|i: int|
            0 <= i < p.inclusions@.len() ==> generated_inclusion(
                #[trigger] p.inclusions@[i],
                entry_hashes(p.entries@),
            ),
        p.consistency matches Some(c) ==> generated_consistency(c, entry_hashes(p.entries@)),
        p.anchor matches Some(a) ==> a.hash@ == anchor_hash(a),
    ensures
        all_passed(verdict(p, head_ok)) == head_ok,
{
    let leaves = entry_hashes(p.entries@);
    assert forall|i: int| 0 <= i < p.inclusions@.len() implies #[trigger] inclusion_ok(
        p.inclusions@[i],
        p.tree_head.root@,
    ) by {
        let q = p.inclusions@[i];
        assert(generated_inclusion(q, leaves));
        lemma_generated_proofs_verify(leaves, q.index as int);
    }
    if let Some(c) = p.consistency {
        lemma_generated_consistency_verifies(leaves, c);
    }
}

} // verus!
