//! Merkle tree over audit entry hashes, for partial verification.
//!
//! Each leaf is an entry's hash. The tree gives:
//! - the root hash, to compare whole chains at once;
//! - inclusion proofs of O(log N) hashes for single entries;
//! - RFC 9162 consistency proofs that a smaller tree is a prefix of a larger one.

use vstd::prelude::*;
use vstd::utf8::encode_utf8;

use crate::consistency::lemma_generated_consistency_verifies;
use crate::entry::AuditEntry;
use crate::hasher::{constant_time_eq, digest_hex, sha256_hex};
use crate::text::extend_bytes;

verus! {

/// The hash of a parent node: the hex SHA-256 digest of the UTF-8 text of
/// the left child followed by that of the right child.
pub open spec fn pair_hash(left: Seq<char>, right: Seq<char>) -> Seq<char> {
    digest_hex(encode_utf8(left) + encode_utf8(right))
}

/// Hash two child nodes to produce a parent node.
pub fn hash_pair(left: &str, right: &str) -> (h: String)
    ensures
        h@ == pair_hash(left@, right@),
{
    let mut buf: Vec<u8> = Vec::new();
    extend_bytes(&mut buf, left.as_bytes());
    extend_bytes(&mut buf, right.as_bytes());
    sha256_hex(buf.as_slice())
}

/// The texts of a sequence of strings.
pub open spec fn texts(v: Seq<String>) -> Seq<Seq<char>> {
    v.map_values(|s: String| s@)
}

/// The level above `s`: each pair of adjacent nodes hashed together, the
/// last node of an odd level paired with itself.
pub open spec fn next_level(s: Seq<Seq<char>>) -> Seq<Seq<char>> {
    Seq::new(
        ((s.len() + 1) / 2) as nat,
        |i: int|
            pair_hash(
                s[2 * i],
                if 2 * i + 1 < s.len() {
                    s[2 * i + 1]
                } else {
                    s[2 * i]
                },
            ),
    )
}

/// Every node of the tree over `s`, level by level from the leaves up.
pub open spec fn all_levels(s: Seq<Seq<char>>) -> Seq<Seq<char>>
    decreases s.len(),
{
    if s.len() <= 1 {
        s
    } else {
        s + all_levels(next_level(s))
    }
}

/// The root of the tree over the nonempty leaves `s`, with odd levels
/// closed by duplicating their last node.
pub open spec fn tree_root(s: Seq<Seq<char>>) -> Seq<char>
    decreases s.len(),
{
    if s.len() == 0 {
        Seq::empty()
    } else if s.len() == 1 {
        s[0]
    } else {
        tree_root(next_level(s))
    }
}

/// Side indicator for proof path nodes.
#[derive(Clone, Copy, Debug, PartialEq, Eq, Structural)]
#[non_exhaustive]
pub enum Side {
    Left,
    Right,
}

/// A node in a Merkle proof path.
#[derive(Clone, Debug, PartialEq, Eq)]
pub struct ProofNode {
    /// The sibling hash.
    pub hash: String,
    /// Whether this sibling is on the left or right.
    pub side: Side,
}

/// An inclusion proof for a single entry in the Merkle tree.
#[derive(Clone, Debug, PartialEq, Eq)]
pub struct MerkleProof {
    /// The entry index this proof is for.
    pub index: usize,
    /// The hash of the entry (leaf).
    pub leaf_hash: String,
    /// Sibling hashes from leaf to root, with their side.
    pub path: Vec<ProofNode>,
    /// The expected root hash.
    pub root: String,
}

/// A proof node as a plain pair of hash text and side.
pub open spec fn node_view(n: ProofNode) -> (Seq<char>, Side) {
    (n.hash@, n.side)
}

/// A proof path as plain pairs.
pub open spec fn path_view(p: Seq<ProofNode>) -> Seq<(Seq<char>, Side)> {
    p.map_values(|n: ProofNode| node_view(n))
}

/// The inclusion path of the node at `idx` in level `s`: at each level the
/// sibling (the node itself where it has none) and the sibling's side.
pub open spec fn inclusion_path(s: Seq<Seq<char>>, idx: int) -> Seq<(Seq<char>, Side)>
    decreases s.len(),
{
    if s.len() <= 1 {
        Seq::empty()
    } else {
        let sib = if idx % 2 == 0 {
            idx + 1
        } else {
            idx - 1
        };
        let h = if sib < s.len() {
            s[sib]
        } else {
            s[idx]
        };
        let side = if idx % 2 == 0 {
            Side::Right
        } else {
            Side::Left
        };
        seq![(h, side)] + inclusion_path(next_level(s), idx / 2)
    }
}

/// One step up a proof path: `cur` hashed with a sibling on the given side.
pub open spec fn path_step(cur: Seq<char>, node: (Seq<char>, Side)) -> Seq<char> {
    match node.1 {
        Side::Left => pair_hash(node.0, cur),
        Side::Right => pair_hash(cur, node.0),
    }
}

/// The hash reached from `cur` by following `path` upwards.
pub open spec fn fold_path(cur: Seq<char>, path: Seq<(Seq<char>, Side)>) -> Seq<char>
    decreases path.len(),
{
    if path.len() == 0 {
        cur
    } else {
        fold_path(path_step(cur, path[0]), path.drop_first())
    }
}

/// The largest power of two that is at least `k` and of the form `k * 2^j`
/// below `n` (for `k = 1`: the largest power of two strictly below `n`).
pub open spec fn lp2_from(k: nat, n: nat) -> nat
    decreases n - k,
{
    if k >= 1 && k * 2 < n {
        lp2_from(k * 2, n)
    } else {
        k
    }
}

/// The largest power of two strictly less than `n`, for `n >= 2`.
pub open spec fn largest_pow2_below(n: nat) -> nat {
    lp2_from(1, n)
}

/// Whether `n` is a power of two.
pub open spec fn is_pow2(n: nat) -> bool
    decreases n,
{
    if n == 1 {
        true
    } else if n >= 2 && n % 2 == 0 {
        is_pow2(n / 2)
    } else {
        false
    }
}

proof fn lemma_lp2_from(k: nat, n: nat)
    requires
        1 <= k < n,
        is_pow2(k),
    ensures
        k <= lp2_from(k, n) < n <= 2 * lp2_from(k, n),
        is_pow2(lp2_from(k, n)),
    decreases n - k,
{
    if k * 2 < n {
        assert(is_pow2(k * 2)) by {
            assert((k * 2) / 2 == k);
        }
        lemma_lp2_from(k * 2, n);
    }
}

/// For `n >= 2`, the largest power of two below `n` is a power of two `k`
/// with `k < n <= 2k`.
pub proof fn lemma_largest_pow2_below(n: nat)
    requires
        n >= 2,
    ensures
        1 <= largest_pow2_below(n) < n <= 2 * largest_pow2_below(n),
        is_pow2(largest_pow2_below(n)),
{
    lemma_lp2_from(1, n);
}

/// The canonical RFC 9162 Merkle tree hash of `s`: a single leaf is its own
/// hash, and a larger list splits at the largest power of two below its
/// length, its hash being the pair hash of the two halves' hashes. No node
/// is duplicated.
pub open spec fn mth(s: Seq<Seq<char>>) -> Seq<char>
    decreases s.len(),
{
    if s.len() == 0 {
        Seq::empty()
    } else if s.len() == 1 {
        s[0]
    } else {
        let k = largest_pow2_below(s.len());
        proof {
            lemma_largest_pow2_below(s.len());
        }
        pair_hash(mth(s.take(k as int)), mth(s.skip(k as int)))
    }
}

/// The RFC 9162 SUBPROOF of the leaves `s[start..start + n]` for the old
/// size `m` within them: the subtree hashes an auditor needs, in order.
/// `complete` tells whether the subtree lies wholly in the old tree's
/// complete prefix, whose hash the auditor already knows.
pub open spec fn subproof_spec(s: Seq<Seq<char>>, m: nat, start: int, n: nat, complete: bool) -> Seq<
    Seq<char>,
>
    decreases n,
{
    if m == n {
        if complete {
            Seq::empty()
        } else {
            seq![mth(s.subrange(start, start + n))]
        }
    } else if n <= 1 {
        if complete || n == 0 {
            Seq::empty()
        } else {
            seq![s[start]]
        }
    } else {
        let k = largest_pow2_below(n);
        proof {
            lemma_largest_pow2_below(n);
        }
        if m <= k {
            subproof_spec(s, m, start, k, complete) + seq![mth(s.subrange(start + k, start + n))]
        } else {
            subproof_spec(s, (m - k) as nat, start + k, (n - k) as nat, false) + seq![
                mth(s.subrange(start, start + k)),
            ]
        }
    }
}

/// An RFC 9162 consistency proof that a smaller tree is a prefix of a
/// larger one (the append-only property), using canonical roots.
#[derive(Clone, Debug, PartialEq, Eq)]
pub struct ConsistencyProof {
    /// The size of the older (smaller) tree.
    pub old_size: usize,
    /// The size of the newer (larger) tree.
    pub new_size: usize,
    /// The canonical RFC 9162 root of the old tree.
    pub old_root: String,
    /// The canonical RFC 9162 root of the new tree.
    pub new_root: String,
    /// Subtree root hashes forming the proof path.
    pub path: Vec<String>,
}

/// Shift both indices right while the first is odd (RFC 9162 2.1.4.2 step 3).
pub open spec fn strip_odd(f: nat, sn: nat) -> (nat, nat)
    decreases f,
{
    if f % 2 == 1 {
        strip_odd(f / 2, sn / 2)
    } else {
        (f, sn)
    }
}

/// Shift both indices right while the first is nonzero and even.
pub open spec fn strip_even(f: nat, sn: nat) -> (nat, nat)
    decreases f,
{
    if f != 0 && f % 2 == 0 {
        strip_even(f / 2, sn / 2)
    } else {
        (f, sn)
    }
}

/// Steps 5 and 6 of the RFC 9162 2.1.4.2 verification over the remaining
/// proof hashes `rest`, from indices `f`, `sn` and running hashes `fr`, `sr`.
pub open spec fn consistency_walk(
    f: nat,
    sn: nat,
    fr: Seq<char>,
    sr: Seq<char>,
    rest: Seq<Seq<char>>,
    old_root: Seq<char>,
    new_root: Seq<char>,
) -> bool
    decreases rest.len(),
{
    if rest.len() == 0 {
        sn == 0 && fr == old_root && sr == new_root
    } else if sn == 0 {
        false
    } else {
        let c = rest[0];
        if f % 2 == 1 || f == sn {
            let (f2, sn2) = strip_even(f, sn);
            consistency_walk(
                f2 / 2,
                sn2 / 2,
                pair_hash(c, fr),
                pair_hash(c, sr),
                rest.drop_first(),
                old_root,
                new_root,
            )
        } else {
            consistency_walk(f / 2, sn / 2, fr, pair_hash(sr, c), rest.drop_first(), old_root, new_root)
        }
    }
}

/// The RFC 9162 2.1.4.2 verdict on a consistency proof.
pub open spec fn consistency_holds(p: ConsistencyProof) -> bool {
    let m = p.old_size as nat;
    let n = p.new_size as nat;
    if m == 0 || m > n {
        false
    } else if m == n {
        p.path@.len() == 0 && p.old_root@ == p.new_root@
    } else {
        let path = if is_pow2(m) {
            seq![p.old_root@] + texts(p.path@)
        } else {
            texts(p.path@)
        };
        if path.len() == 0 {
            false
        } else {
            let (f, sn) = strip_odd((m - 1) as nat, (n - 1) as nat);
            consistency_walk(f, sn, path[0], path[0], path.drop_first(), p.old_root@, p.new_root@)
        }
    }
}

/// A Merkle tree built from audit entry hashes.
#[derive(Debug)]
pub struct MerkleTree {
    /// All nodes, level by level bottom-up; the leaves first.
    nodes: Vec<String>,
    /// Number of leaves (entries).
    leaf_count: usize,
}

proof fn lemma_next_level_shorter(s: Seq<Seq<char>>)
    requires
        s.len() > 1,
    ensures
        next_level(s).len() < s.len(),
        next_level(s).len() >= 1,
{
}

proof fn lemma_all_levels_last(s: Seq<Seq<char>>)
    requires
        s.len() >= 1,
    ensures
        all_levels(s).len() >= 1,
        all_levels(s).last() == tree_root(s),
    decreases s.len(),
{
    if s.len() > 1 {
        lemma_next_level_shorter(s);
        lemma_all_levels_last(next_level(s));
    }
}

/// Following the inclusion path of any leaf from that leaf reaches the root.
pub proof fn lemma_inclusion_path_reaches_root(s: Seq<Seq<char>>, idx: int)
    requires
        0 <= idx < s.len(),
    ensures
        fold_path(s[idx], inclusion_path(s, idx)) == tree_root(s),
    decreases s.len(),
{
    if s.len() > 1 {
        lemma_next_level_shorter(s);
        let up = next_level(s);
        let p = inclusion_path(s, idx);
        assert(p.drop_first() =~= inclusion_path(up, idx / 2));
        assert(path_step(s[idx], p[0]) == up[idx / 2]);
        lemma_inclusion_path_reaches_root(up, idx / 2);
    }
}

impl Clone for MerkleTree {
    /// A copy of the tree.
    fn clone(&self) -> (t: Self)
        ensures
            t.leaves() == self.leaves(),
    {
        proof {
            use_type_invariant(self);
        }
        let mut nodes: Vec<String> = Vec::new();
        let n = self.nodes.len();
        for i in 0..n
            invariant
                n == self.nodes@.len(),
                nodes@ == self.nodes@.take(i as int),
        {
            nodes.push(self.nodes[i].clone());
            assert(self.nodes@.take(i + 1) =~= self.nodes@.take(i as int).push(self.nodes@[i as int]));
        }
        assert(self.nodes@.take(n as int) =~= self.nodes@);
        MerkleTree { nodes, leaf_count: self.leaf_count }
    }
}

impl MerkleTree {
    #[verifier::type_invariant]
    spec fn well_formed(self) -> bool {
        &&& self.leaf_count >= 1
        &&& self.leaf_count <= self.nodes@.len()
        &&& texts(self.nodes@) == all_levels(texts(self.nodes@).take(self.leaf_count as int))
    }

    /// The leaf hashes, in entry order.
    pub closed spec fn leaves(self) -> Seq<Seq<char>> {
        texts(self.nodes@).take(self.leaf_count as int)
    }

    /// Build a Merkle tree whose leaves are the entries' hashes, in order;
    /// `None` when there are no entries.
    pub fn build(entries: &[AuditEntry]) -> (r: Option<Self>)
        ensures
            entries@.len() == 0 <==> r is None,
            r matches Some(t) ==> t.leaves() == entries@.map_values(|e: AuditEntry| e.hash@),
    {
        let n = entries.len();
        if n == 0 {
            return None;
        }
        let mut current: Vec<String> = Vec::new();
        for i in 0..n
            invariant
                n == entries@.len(),
                texts(current@) == entries@.take(i as int).map_values(|e: AuditEntry| e.hash@),
        {
            let ghost prior = current@;
            current.push(entries[i].hash.clone());
            assert(entries@.take(i + 1) =~= entries@.take(i as int).push(entries@[i as int]));
            assert(texts(current@) =~= texts(prior).push(entries@[i as int].hash@));
        }
        assert(entries@.take(n as int) =~= entries@);
        let ghost leaves = texts(current@);
        let mut nodes: Vec<String> = Vec::new();
        while current.len() > 1
            invariant
                current@.len() >= 1,
                leaves.len() == n,
                n >= 1,
                texts(nodes@) + all_levels(texts(current@)) == all_levels(leaves),
            decreases current@.len(),
        {
            let len = current.len();
            let ghost cur = texts(current@);
            let mut next: Vec<String> = Vec::new();
            let half = len / 2 + len % 2;
            for j in 0..half
                invariant
                    len == current@.len(),
                    len > 1,
                    half == (len + 1) / 2,
                    cur == texts(current@),
                    next@.len() == j,
                    forall|k: int| 0 <= k < j ==> #[trigger] texts(next@)[k] == next_level(cur)[k],
            {
                let left = &current[2 * j];
                let right = if 2 * j + 1 < len {
                    &current[2 * j + 1]
                } else {
                    left
                };
                let h = hash_pair(left.as_str(), right.as_str());
                let ghost prior = next@;
                next.push(h);
                assert(texts(next@) =~= texts(prior).push(h@));
            }
            assert(texts(next@) =~= next_level(cur));
            proof {
                lemma_next_level_shorter(cur);
                assert(all_levels(cur) == cur + all_levels(next_level(cur)));
            }
            let ghost before = texts(nodes@);
            nodes.append(&mut current);
            assert(texts(nodes@) =~= before + cur);
            current = next;
            assert(texts(nodes@) + all_levels(texts(current@)) =~= before + all_levels(cur));
        }
        let ghost before = texts(nodes@);
        let ghost last_level = texts(current@);
        nodes.append(&mut current);
        proof {
            assert(all_levels(last_level) == last_level);
            assert(texts(nodes@) =~= before + all_levels(last_level));
            lemma_all_levels_prefix_take(leaves);
            assert(texts(nodes@) == all_levels(leaves));
            assert(texts(nodes@).take(n as int) =~= leaves);
        }
        Some(MerkleTree { nodes, leaf_count: n })
    }

    /// The Merkle root hash.
    pub fn root(&self) -> (r: &str)
        ensures
            r@ == tree_root(self.leaves()),
    {
        proof {
            use_type_invariant(self);
            lemma_all_levels_last(self.leaves());
        }
        let n = self.nodes.len();
        self.nodes[n - 1].as_str()
    }

    /// Number of leaves (entries) in the tree.
    pub fn leaf_count(&self) -> (n: usize)
        ensures
            n == self.leaves().len(),
            n >= 1,
    {
        proof {
            use_type_invariant(self);
        }
        self.leaf_count
    }

    /// The canonical RFC 9162 root of the first `size` leaves; `None` when
    /// `size` is 0 or greater than the leaf count. For a power-of-two size
    /// it equals the root of the tree over those leaves.
    pub fn canonical_root(&self, size: usize) -> (r: Option<String>)
        ensures
            (size == 0 || size > self.leaves().len()) <==> r is None,
            r matches Some(h) ==> h@ == mth(self.leaves().take(size as int)),
            size == self.leaves().len() && is_pow2(size as nat) ==> (r matches Some(h) && h@
                == tree_root(self.leaves())),
    {
        proof {
            use_type_invariant(self);
            if size == self.leaves().len() && is_pow2(size as nat) {
                assert(self.leaves().take(size as int) =~= self.leaves());
                lemma_pow2_canonical_root(self.leaves());
            }
        }
        if size == 0 || size > self.leaf_count {
            return None;
        }
        let h = self.canonical_subtree_hash(0, size);
        assert(self.leaves().subrange(0, size as int) =~= self.leaves().take(size as int));
        Some(h)
    }

    /// The canonical hash of the leaves `start .. start + count`.
    pub fn canonical_subtree_hash(&self, start: usize, count: usize) -> (h: String)
        requires
            start + count <= self.leaves().len(),
        ensures
            h@ == mth(self.leaves().subrange(start as int, start + count)),
        decreases count,
    {
        proof {
            use_type_invariant(self);
        }
        let ghost sub = self.leaves().subrange(start as int, start + count);
        if count == 0 {
            return String::new();
        }
        if count == 1 {
            assert(texts(self.nodes@)[start as int] == sub[0]);
            return self.nodes[start].clone();
        }
        let k = largest_power_of_2_less_than(count);
        proof {
            lemma_largest_pow2_below(count as nat);
        }
        let left = self.canonical_subtree_hash(start, k);
        let right = self.canonical_subtree_hash(start + k, count - k);
        proof {
            assert(sub.take(k as int) =~= self.leaves().subrange(start as int, start + k));
            assert(sub.skip(k as int) =~= self.leaves().subrange(start + k, start + count));
        }
        hash_pair(left.as_str(), right.as_str())
    }

    /// Appends the RFC 9162 SUBPROOF hashes for old size `m` within the
    /// leaves `start .. start + n`.
    pub fn subproof(&self, m: usize, start: usize, n: usize, complete: bool, path: &mut Vec<String>)
        requires
            1 <= m <= n,
            start + n <= self.leaves().len(),
        ensures
            texts(final(path)@) == texts(old(path)@) + subproof_spec(
                self.leaves(),
                m as nat,
                start as int,
                n as nat,
                complete,
            ),
        decreases n,
    {
        proof {
            use_type_invariant(self);
        }
        let ghost before = texts(path@);
        if m == n {
            if !complete {
                let h = self.canonical_subtree_hash(start, n);
                path.push(h);
                assert(texts(path@) =~= before.push(h@));
            } else {
                assert(texts(path@) =~= before);
            }
            return;
        }
        if n == 1 {
            if !complete {
                assert(texts(self.nodes@)[start as int] == self.leaves()[start as int]);
                let h = self.nodes[start].clone();
                path.push(h);
                assert(texts(path@) =~= before.push(h@));
            } else {
                assert(texts(path@) =~= before);
            }
            return;
        }
        let k = largest_power_of_2_less_than(n);
        proof {
            lemma_largest_pow2_below(n as nat);
        }
        if m <= k {
            self.subproof(m, start, k, complete, path);
            let ghost mid = texts(path@);
            let h = self.canonical_subtree_hash(start + k, n - k);
            path.push(h);
            assert(texts(path@) =~= mid.push(h@));
        } else {
            self.subproof(m - k, start + k, n - k, false, path);
            let ghost mid = texts(path@);
            let h = self.canonical_subtree_hash(start, k);
            path.push(h);
            assert(texts(path@) =~= mid.push(h@));
        }
    }

    /// Generate an RFC 9162 consistency proof from an older tree size:
    /// evidence that the first `old_size` leaves of this tree have the
    /// canonical root of a tree built from only those leaves. `None` when
    /// `old_size` is 0 or greater than the leaf count.
    pub fn consistency_proof(&self, old_size: usize) -> (r: Option<ConsistencyProof>)
        ensures
            (old_size == 0 || old_size > self.leaves().len()) <==> r is None,
            r matches Some(p) ==> {
                &&& p.old_size == old_size
                &&& p.new_size == self.leaves().len()
                &&& p.old_root@ == mth(self.leaves().take(old_size as int))
                &&& p.new_root@ == mth(self.leaves())
                &&& texts(p.path@) == if old_size == self.leaves().len() {
                    Seq::<Seq<char>>::empty()
                } else {
                    subproof_spec(self.leaves(), old_size as nat, 0, self.leaves().len(), true)
                }
            },
            r matches Some(p) ==> consistency_holds(p),
    {
        proof {
            use_type_invariant(self);
        }
        if old_size == 0 || old_size > self.leaf_count {
            return None;
        }
        let old_root = match self.canonical_root(old_size) {
            Some(h) => h,
            None => {
                return None;
            },
        };
        let new_root = match self.canonical_root(self.leaf_count) {
            Some(h) => h,
            None => {
                return None;
            },
        };
        assert(self.leaves().take(self.leaf_count as int) =~= self.leaves());
        let mut path: Vec<String> = Vec::new();
        if old_size < self.leaf_count {
            self.subproof(old_size, 0, self.leaf_count, true, &mut path);
            assert(texts(path@) =~= subproof_spec(
                self.leaves(),
                old_size as nat,
                0,
                self.leaves().len(),
                true,
            ));
        } else {
            assert(texts(path@) =~= Seq::<Seq<char>>::empty());
        }
        let proof = ConsistencyProof { old_size, new_size: self.leaf_count, old_root, new_root, path };
        proof {
            lemma_generated_consistency_verifies(self.leaves(), proof);
        }
        Some(proof)
    }

    /// Generate an inclusion proof for the entry at `index`; `None` when the
    /// index is out of bounds.
    pub fn inclusion_proof(&self, index: usize) -> (r: Option<MerkleProof>)
        ensures
            index >= self.leaves().len() <==> r is None,
            r matches Some(p) ==> {
                &&& p.index == index
                &&& p.leaf_hash@ == self.leaves()[index as int]
                &&& path_view(p.path@) == inclusion_path(self.leaves(), index as int)
                &&& p.root@ == tree_root(self.leaves())
            },
    {
        proof {
            use_type_invariant(self);
        }
        if index >= self.leaf_count {
            return None;
        }
        let ghost leaves = self.leaves();
        let ghost all = texts(self.nodes@);
        let mut path: Vec<ProofNode> = Vec::new();
        let mut level_start: usize = 0;
        let mut level_size: usize = self.leaf_count;
        let mut idx: usize = index;
        let ghost mut level = leaves;
        let total = self.nodes.len();
        proof {
            assert(all.subrange(0, all.len() as int) =~= all);
        }
        while level_size > 1
            invariant
                all == texts(self.nodes@),
                total == all.len(),
                level.len() == level_size,
                level_size >= 1,
                idx < level_size,
                level_start <= all.len(),
                all.subrange(level_start as int, all.len() as int) == all_levels(level),
                path_view(path@) + inclusion_path(level, idx as int) == inclusion_path(
                    leaves,
                    index as int,
                ),
                tree_root(level) == tree_root(leaves),
            decreases level_size,
        {
            proof {
                lemma_all_levels_prefix_take(level);
                lemma_next_level_shorter(level);
                assert(all.len() == self.nodes@.len());
                assert(all_levels(level) == level + all_levels(next_level(level)));
                assert(all.subrange(level_start as int, all.len() as int).len() == total
                    - level_start);
                assert(level_start + level_size <= total);
            }
            let sibling_idx = if idx % 2 == 0 {
                idx + 1
            } else {
                idx - 1
            };
            let sibling_hash = if sibling_idx < level_size {
                proof {
                    assert(all[level_start + sibling_idx] == all_levels(level)[sibling_idx as int]);
                }
                self.nodes[level_start + sibling_idx].clone()
            } else {
                proof {
                    assert(all[level_start + idx] == all_levels(level)[idx as int]);
                }
                self.nodes[level_start + idx].clone()
            };
            let side = if idx % 2 == 0 {
                Side::Right
            } else {
                Side::Left
            };
            let node = ProofNode { hash: sibling_hash, side };
            let ghost prior = path@;
            path.push(node);
            proof {
                assert(path_view(path@) =~= path_view(prior).push(node_view(node)));
                assert(inclusion_path(level, idx as int) == seq![node_view(node)] + inclusion_path(
                    next_level(level),
                    (idx / 2) as int,
                ));
                assert(path_view(path@) + inclusion_path(next_level(level), (idx / 2) as int) =~= path_view(
                    prior,
                ) + inclusion_path(level, idx as int));
                assert(all.subrange((level_start + level_size) as int, all.len() as int)
                    =~= all.subrange(level_start as int, all.len() as int).subrange(
                    level_size as int,
                    all.len() - level_start,
                ));
                assert((level + all_levels(next_level(level))).subrange(
                    level_size as int,
                    all.len() - level_start,
                ) =~= all_levels(next_level(level)));
                level = next_level(level);
            }
            level_start = level_start + level_size;
            level_size = level_size / 2 + level_size % 2;
            idx = idx / 2;
        }
        proof {
            assert(path_view(path@) =~= inclusion_path(leaves, index as int));
            assert(texts(self.nodes@)[index as int] == leaves[index as int]);
        }
        Some(
            MerkleProof {
                index,
                leaf_hash: self.nodes[index].clone(),
                path,
                root: crate::text::string_of(self.root()),
            },
        )
    }
}

/// Verify a Merkle inclusion proof: whether following the path upwards from
/// the leaf hash reaches the proof's root.
pub fn verify_proof(proof: &MerkleProof) -> (r: bool)
    ensures
        r == (fold_path(proof.leaf_hash@, path_view(proof.path@)) == proof.root@),
{
    let ghost p = path_view(proof.path@);
    let mut current = proof.leaf_hash.clone();
    let n = proof.path.len();
    assert(p.skip(0) =~= p);
    for i in 0..n
        invariant
            n == proof.path@.len(),
            p == path_view(proof.path@),
            fold_path(current@, p.skip(i as int)) == fold_path(proof.leaf_hash@, p),
    {
        let node = &proof.path[i];
        proof {
            assert(p.skip(i as int).drop_first() =~= p.skip(i + 1));
            assert(p.skip(i as int)[0] == node_view(*node));
        }
        current = match node.side {
            Side::Left => hash_pair(node.hash.as_str(), current.as_str()),
            Side::Right => hash_pair(current.as_str(), node.hash.as_str()),
        };
    }
    proof {
        assert(p.skip(n as int) =~= Seq::<(Seq<char>, Side)>::empty());
        assert(p.skip(0) =~= p);
    }
    constant_time_eq(current.as_str(), proof.root.as_str())
}

/// Largest power of 2 strictly less than `n`.
pub fn largest_power_of_2_less_than(n: usize) -> (k: usize)
    requires
        n >= 2,
    ensures
        k == largest_pow2_below(n as nat),
{
    let mut k: usize = 1;
    while k < n - k
        invariant
            1 <= k < n,
            lp2_from(k as nat, n as nat) == largest_pow2_below(n as nat),
        decreases n - k,
    {
        k = k * 2;
    }
    k
}

/// Whether `n` is a power of two.
pub fn is_power_of_two(n: usize) -> (b: bool)
    ensures
        b == is_pow2(n as nat),
    decreases n,
{
    if n == 1 {
        true
    } else if n >= 2 && n % 2 == 0 {
        is_power_of_two(n / 2)
    } else {
        false
    }
}

/// Verify an RFC 9162 consistency proof (RFC 9162 section 2.1.4.2): whether
/// the path hashes, with the two tree sizes, rebuild both the old and the
/// new root.
pub fn verify_consistency(proof: &ConsistencyProof) -> (r: bool)
    ensures
        r == consistency_holds(*proof),
{
    if proof.old_size == 0 || proof.old_size > proof.new_size {
        return false;
    }
    if proof.old_size == proof.new_size {
        return proof.path.len() == 0 && constant_time_eq(
            proof.old_root.as_str(),
            proof.new_root.as_str(),
        );
    }
    let mut path: Vec<String> = Vec::new();
    if is_power_of_two(proof.old_size) {
        path.push(proof.old_root.clone());
    }
    let ghost head = texts(path@);
    let n = proof.path.len();
    for i in 0..n
        invariant
            n == proof.path@.len(),
            texts(path@) == head + texts(proof.path@).take(i as int),
    {
        let ghost prior = texts(path@);
        path.push(proof.path[i].clone());
        assert(texts(proof.path@).take(i + 1) =~= texts(proof.path@).take(i as int).push(
            proof.path@[i as int]@,
        ));
        assert(texts(path@) =~= prior.push(proof.path@[i as int]@));
    }
    let ghost full = texts(path@);
    proof {
        assert(texts(proof.path@).take(n as int) =~= texts(proof.path@));
        assert(full == if is_pow2(proof.old_size as nat) {
            seq![proof.old_root@] + texts(proof.path@)
        } else {
            texts(proof.path@)
        });
    }
    if path.len() == 0 {
        return false;
    }
    let mut fn_idx: usize = proof.old_size - 1;
    let mut sn_idx: usize = proof.new_size - 1;
    while fn_idx % 2 == 1
        invariant
            strip_odd(fn_idx as nat, sn_idx as nat) == strip_odd(
                (proof.old_size - 1) as nat,
                (proof.new_size - 1) as nat,
            ),
        decreases fn_idx,
    {
        fn_idx = fn_idx / 2;
        sn_idx = sn_idx / 2;
    }
    let mut fr = path[0].clone();
    let mut sr = path[0].clone();
    let total = path.len();
    proof {
        assert(full.skip(1) =~= full.drop_first());
    }
    let mut i: usize = 1;
    while i < total
        invariant
            total == path@.len(),
            total >= 1,
            1 <= i <= total,
            full == texts(path@),
            consistency_walk(
                fn_idx as nat,
                sn_idx as nat,
                fr@,
                sr@,
                full.skip(i as int),
                proof.old_root@,
                proof.new_root@,
            ) == consistency_holds(*proof),
        decreases total - i,
    {
        let ghost rest = full.skip(i as int);
        assert(rest[0] == path@[i as int]@);
        assert(rest.drop_first() =~= full.skip(i + 1));
        if sn_idx == 0 {
            return false;
        }
        let c = &path[i];
        if fn_idx % 2 == 1 || fn_idx == sn_idx {
            let ghost f0 = fn_idx as nat;
            let ghost s0 = sn_idx as nat;
            fr = hash_pair(c.as_str(), fr.as_str());
            sr = hash_pair(c.as_str(), sr.as_str());
            while fn_idx != 0 && fn_idx % 2 == 0
                invariant
                    strip_even(fn_idx as nat, sn_idx as nat) == strip_even(f0, s0),
                decreases fn_idx,
            {
                fn_idx = fn_idx / 2;
                sn_idx = sn_idx / 2;
            }
            assert(strip_even(fn_idx as nat, sn_idx as nat) == (fn_idx as nat, sn_idx as nat));
        } else {
            sr = hash_pair(sr.as_str(), c.as_str());
        }
        fn_idx = fn_idx / 2;
        sn_idx = sn_idx / 2;
        i = i + 1;
    }
    assert(full.skip(total as int) =~= Seq::<Seq<char>>::empty());
    sn_idx == 0 && constant_time_eq(fr.as_str(), proof.old_root.as_str()) && constant_time_eq(
        sr.as_str(),
        proof.new_root.as_str(),
    )
}

/// Every inclusion proof that a tree generates verifies.
pub proof fn lemma_generated_proofs_verify(leaves: Seq<Seq<char>>, index: int)
    requires
        0 <= index < leaves.len(),
    ensures
        fold_path(leaves[index], inclusion_path(leaves, index)) == tree_root(leaves),
{
    lemma_inclusion_path_reaches_root(leaves, index);
}


proof fn lemma_all_levels_prefix_take(s: Seq<Seq<char>>)
    ensures
        all_levels(s).len() >= s.len(),
        all_levels(s).take(s.len() as int) == s,
{
    assert(all_levels(s).take(s.len() as int) =~= s);
}


pub(crate) proof fn lemma_pow2_even(n: nat)
    requires
        is_pow2(n),
        n >= 2,
    ensures
        n % 2 == 0,
        is_pow2(n / 2),
        n / 2 >= 1,
{
}

/// The largest power of two below `x` is the power of two `k` with
/// `k < x <= 2k`.
pub(crate) proof fn lemma_lp2_between(j: nat, k: nat, x: nat)
    requires
        is_pow2(j),
        is_pow2(k),
        1 <= j <= k,
        k < x <= 2 * k,
    ensures
        lp2_from(j, x) == k,
    decreases k - j,
{
    if j < k {
        lemma_pow2_le_double(j, k);
        assert(is_pow2(j * 2)) by {
            assert((j * 2) / 2 == j);
        }
        lemma_lp2_between(j * 2, k, x);
    }
}

pub(crate) proof fn lemma_pow2_le_double(j: nat, k: nat)
    requires
        is_pow2(j),
        is_pow2(k),
        1 <= j < k,
    ensures
        j * 2 <= k,
    decreases k,
{
    if j >= 2 {
        lemma_pow2_even(j);
    }
    lemma_pow2_even(k);
    if j == 1 {
    } else if j / 2 < k / 2 {
        lemma_pow2_le_double(j / 2, k / 2);
    } else {
        assert(j / 2 == k / 2 || j / 2 > k / 2);
        assert(false);
    }
}

proof fn lemma_next_level_split(s: Seq<Seq<char>>, k: nat)
    requires
        s.len() == 2 * k,
        k % 2 == 0,
        k >= 2,
    ensures
        next_level(s) == next_level(s.take(k as int)) + next_level(s.skip(k as int)),
{
    let a = next_level(s);
    let b = next_level(s.take(k as int)) + next_level(s.skip(k as int));
    assert(a.len() == b.len());
    assert forall|i: int| 0 <= i < a.len() implies a[i] == b[i] by {
        if i < k / 2 {
            assert(s.take(k as int)[2 * i] == s[2 * i]);
            assert(s.take(k as int)[2 * i + 1] == s[2 * i + 1]);
        } else {
            let j = i - k / 2;
            assert(s.skip(k as int)[2 * j] == s[2 * i]);
            assert(s.skip(k as int)[2 * j + 1] == s[2 * i + 1]);
        }
    }
    assert(a =~= b);
}

/// For a power-of-two number of leaves (at least two), the root of the
/// tree is the pair hash of the roots of its two halves.
proof fn lemma_tree_root_halves(s: Seq<Seq<char>>)
    requires
        is_pow2(s.len()),
        s.len() >= 2,
    ensures
        tree_root(s) == pair_hash(
            tree_root(s.take((s.len() / 2) as int)),
            tree_root(s.skip((s.len() / 2) as int)),
        ),
    decreases s.len(),
{
    let k = (s.len() / 2) as nat;
    lemma_pow2_even(s.len());
    let up = next_level(s);
    assert(up.len() == k);
    if k == 1 {
        assert(s.take(1) =~= seq![s[0]]);
        assert(s.skip(1) =~= seq![s[1]]);
        assert(tree_root(up) == up[0]);
    } else {
        lemma_pow2_even(k);
        lemma_next_level_split(s, k);
        lemma_tree_root_halves(up);
        assert(up.take((k / 2) as int) =~= next_level(s.take(k as int)));
        assert(up.skip((k / 2) as int) =~= next_level(s.skip(k as int)));
        assert(tree_root(s.take(k as int)) == tree_root(next_level(s.take(k as int))));
        assert(tree_root(s.skip(k as int)) == tree_root(next_level(s.skip(k as int))));
    }
}

/// For a power-of-two number of leaves, the canonical RFC 9162 root equals
/// the root of the tree that duplicates odd nodes: no level is odd.
pub proof fn lemma_pow2_canonical_root(s: Seq<Seq<char>>)
    requires
        is_pow2(s.len()),
    ensures
        mth(s) == tree_root(s),
    decreases s.len(),
{
    if s.len() >= 2 {
        let k = (s.len() / 2) as nat;
        lemma_pow2_even(s.len());
        lemma_lp2_between(1, k, s.len());
        assert(largest_pow2_below(s.len()) == k) by {
            assert(2 * k == s.len());
        }
        lemma_tree_root_halves(s);
        assert(s.take(k as int).len() == k);
        assert(s.skip(k as int).len() == k);
        lemma_pow2_canonical_root(s.take(k as int));
        lemma_pow2_canonical_root(s.skip(k as int));
    }
}

} // verus!
