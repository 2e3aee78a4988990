use libro::chain::AuditChain;
use libro::entry::{AuditEntry, EventSeverity};
use libro::merkle::{
    hash_pair, is_power_of_two, largest_power_of_2_less_than, verify_consistency, verify_proof, MerkleTree, Side,
};

fn make_entries(n: usize) -> Vec<AuditEntry> {
    let mut entries = Vec::new();
    entries.push(AuditEntry::new(EventSeverity::Info, "s", "e0", "{}", ""));
    for i in 1..n {
        let prev = entries[i - 1].hash().to_owned();
        entries.push(AuditEntry::new(EventSeverity::Info, "s", &format!("e{i}"), "{}", &prev));
    }
    entries
}

#[test]
fn build_empty() {
    assert!(MerkleTree::build(&[]).is_none());
}

#[test]
fn build_single_entry() {
    let entries = make_entries(1);
    let tree = MerkleTree::build(&entries).unwrap();
    assert_eq!(tree.leaf_count(), 1);
    assert_eq!(tree.root(), entries[0].hash());
}

#[test]
fn build_two_entries() {
    let entries = make_entries(2);
    let tree = MerkleTree::build(&entries).unwrap();
    assert_eq!(tree.leaf_count(), 2);
    let expected_root = hash_pair(entries[0].hash(), entries[1].hash());
    assert_eq!(tree.root(), expected_root);
}

#[test]
fn build_power_of_two() {
    let entries = make_entries(8);
    let tree = MerkleTree::build(&entries).unwrap();
    assert_eq!(tree.leaf_count(), 8);
    assert!(!tree.root().is_empty());
}

#[test]
fn build_odd_count() {
    let entries = make_entries(5);
    let tree = MerkleTree::build(&entries).unwrap();
    assert_eq!(tree.leaf_count(), 5);
    assert!(!tree.root().is_empty());
}

#[test]
fn proof_and_verify_all_entries() {
    let entries = make_entries(8);
    let tree = MerkleTree::build(&entries).unwrap();
    for (i, entry) in entries.iter().enumerate() {
        let proof = tree.inclusion_proof(i).unwrap();
        assert_eq!(proof.index, i);
        assert_eq!(proof.leaf_hash, entry.hash());
        assert_eq!(proof.root, tree.root());
        assert!(verify_proof(&proof), "proof failed for index {i}");
    }
}

#[test]
fn proof_and_verify_odd_tree() {
    let entries = make_entries(7);
    let tree = MerkleTree::build(&entries).unwrap();
    for i in 0..entries.len() {
        let proof = tree.inclusion_proof(i).unwrap();
        assert!(verify_proof(&proof), "proof failed for index {i}");
    }
}

#[test]
fn proof_out_of_bounds() {
    let entries = make_entries(4);
    let tree = MerkleTree::build(&entries).unwrap();
    assert!(tree.inclusion_proof(4).is_none());
    assert!(tree.inclusion_proof(100).is_none());
}

#[test]
fn tampered_proof_fails() {
    let entries = make_entries(8);
    let tree = MerkleTree::build(&entries).unwrap();
    let mut proof = tree.inclusion_proof(3).unwrap();
    proof.leaf_hash = "tampered".to_owned();
    assert!(!verify_proof(&proof));
}

#[test]
fn tampered_path_fails() {
    let entries = make_entries(8);
    let tree = MerkleTree::build(&entries).unwrap();
    let mut proof = tree.inclusion_proof(3).unwrap();
    if let Some(node) = proof.path.first_mut() {
        node.hash = "tampered".to_owned();
    }
    assert!(!verify_proof(&proof));
}

#[test]
fn different_entries_different_roots() {
    let entries_a = make_entries(4);
    let mut entries_b = make_entries(4);
    entries_b[2].action = "different".into();
    entries_b[2].hash = entries_b[2].compute_hash();
    let tree_a = MerkleTree::build(&entries_a).unwrap();
    let tree_b = MerkleTree::build(&entries_b).unwrap();
    assert_ne!(tree_a.root(), tree_b.root());
}

#[test]
fn large_tree() {
    let entries = make_entries(100);
    let tree = MerkleTree::build(&entries).unwrap();
    assert_eq!(tree.leaf_count(), 100);
    for i in [0, 49, 99] {
        let proof = tree.inclusion_proof(i).unwrap();
        assert!(verify_proof(&proof));
    }
}

#[test]
fn single_entry_proof() {
    let entries = make_entries(1);
    let tree = MerkleTree::build(&entries).unwrap();
    let proof = tree.inclusion_proof(0).unwrap();
    assert!(proof.path.is_empty());
    assert!(verify_proof(&proof));
}

#[test]
fn consistency_same_size() {
    let entries = make_entries(8);
    let tree = MerkleTree::build(&entries).unwrap();
    let proof = tree.consistency_proof(8).unwrap();
    assert!(proof.path.is_empty());
    assert_eq!(proof.old_root, proof.new_root);
    assert!(verify_consistency(&proof));
}

#[test]
fn consistency_power_of_two() {
    let entries = make_entries(8);
    let tree = MerkleTree::build(&entries).unwrap();
    for old_size in 1..=8 {
        let proof = tree.consistency_proof(old_size).unwrap();
        assert_eq!(proof.old_size, old_size);
        assert_eq!(proof.new_size, 8);
        assert!(verify_consistency(&proof), "consistency proof failed for old_size={old_size}");
    }
}

#[test]
fn consistency_odd_sizes() {
    for n in [3, 5, 7, 9, 11, 13, 15] {
        let entries = make_entries(n);
        let tree = MerkleTree::build(&entries).unwrap();
        for m in 1..=n {
            let proof = tree.consistency_proof(m).unwrap();
            assert!(verify_consistency(&proof), "consistency proof failed for m={m}, n={n}");
        }
    }
}

#[test]
fn consistency_one_to_many() {
    let entries = make_entries(16);
    let tree = MerkleTree::build(&entries).unwrap();
    let proof = tree.consistency_proof(1).unwrap();
    assert!(verify_consistency(&proof));
    assert_eq!(proof.old_root, entries[0].hash());
}

#[test]
fn consistency_invalid_old_size() {
    let entries = make_entries(5);
    let tree = MerkleTree::build(&entries).unwrap();
    assert!(tree.consistency_proof(0).is_none());
    assert!(tree.consistency_proof(6).is_none());
}

#[test]
fn consistency_tampered_path_fails() {
    let entries = make_entries(8);
    let tree = MerkleTree::build(&entries).unwrap();
    let mut proof = tree.consistency_proof(3).unwrap();
    if let Some(h) = proof.path.first_mut() {
        *h = "tampered".to_owned();
    }
    assert!(!verify_consistency(&proof));
}

#[test]
fn consistency_wrong_old_size_fails() {
    let entries = make_entries(8);
    let tree = MerkleTree::build(&entries).unwrap();
    let mut proof = tree.consistency_proof(4).unwrap();
    proof.old_size = 3;
    assert!(!verify_consistency(&proof));
}

#[test]
fn canonical_root_power_of_two_matches_tree_root() {
    for n in [1, 2, 4, 8, 16, 32] {
        let entries = make_entries(n);
        let tree = MerkleTree::build(&entries).unwrap();
        let canonical = tree.canonical_root(n).unwrap();
        assert_eq!(canonical, tree.root(), "canonical root should match tree root for power-of-2 size {n}");
    }
}

#[test]
fn canonical_root_bounds() {
    let entries = make_entries(5);
    let tree = MerkleTree::build(&entries).unwrap();
    assert!(tree.canonical_root(0).is_none());
    assert!(tree.canonical_root(6).is_none());
    assert!(tree.canonical_root(5).is_some());
}

#[test]
fn canonical_root_prefix_stable() {
    let entries_5 = make_entries(5);
    let entries_8 = {
        let mut v = entries_5.clone();
        let prev = v.last().unwrap().hash().to_owned();
        for i in 5..8 {
            v.push(AuditEntry::new(EventSeverity::Info, "s", &format!("e{i}"), "{}", &prev));
        }
        v
    };
    let tree_5 = MerkleTree::build(&entries_5).unwrap();
    let tree_8 = MerkleTree::build(&entries_8).unwrap();
    assert_eq!(tree_5.canonical_root(5), tree_8.canonical_root(5));
}

#[test]
fn consistency_large_tree() {
    let entries = make_entries(100);
    let tree = MerkleTree::build(&entries).unwrap();
    for m in [1, 10, 33, 50, 64, 99, 100] {
        let proof = tree.consistency_proof(m).unwrap();
        assert!(verify_consistency(&proof), "consistency proof failed for m={m}, n=100");
    }
}

#[test]
fn merkle_tree_from_chain() {
    let mut chain = AuditChain::new();
    for i in 0..10 {
        chain.append(EventSeverity::Info, "src", &format!("e{i}"), "{}");
    }
    let tree = MerkleTree::build(chain.entries()).unwrap();
    assert_eq!(tree.leaf_count(), 10);
    for i in 0..10 {
        let proof = tree.inclusion_proof(i).unwrap();
        assert!(verify_proof(&proof));
    }
    let mut entries2 = chain.entries().to_vec();
    entries2.push(AuditEntry::new(EventSeverity::Info, "src", "e10", "{}", chain.head_hash().unwrap()));
    let chain2 = AuditChain::from_entries(entries2);
    let tree2 = MerkleTree::build(chain2.entries()).unwrap();
    assert_ne!(tree.root(), tree2.root());
}

#[test]
fn merkle_proof_all_odd_sizes() {
    for n in [1, 3, 5, 7, 9, 11, 13, 15, 17] {
        let mut chain = AuditChain::new();
        for i in 0..n {
            chain.append(EventSeverity::Info, "src", &format!("e{i}"), "{}");
        }
        let tree = MerkleTree::build(chain.entries()).unwrap();
        for i in 0..n {
            let proof = tree.inclusion_proof(i).unwrap();
            assert!(verify_proof(&proof), "proof failed for tree size {n}, index {i}");
        }
    }
}

#[test]
fn three_leaf_root_duplicates_last_node() {
    let entries = make_entries(3);
    let tree = MerkleTree::build(&entries).unwrap();
    let left = hash_pair(entries[0].hash(), entries[1].hash());
    let right = hash_pair(entries[2].hash(), entries[2].hash());
    assert_eq!(tree.root(), hash_pair(&left, &right));
    let canonical = hash_pair(&left, entries[2].hash());
    assert_eq!(tree.canonical_root(3).unwrap(), canonical);
}

#[test]
fn inclusion_path_sides() {
    let entries = make_entries(3);
    let tree = MerkleTree::build(&entries).unwrap();
    let p = tree.inclusion_proof(2).unwrap();
    assert_eq!(p.path.len(), 2);
    assert_eq!(p.path[0].side, Side::Right);
    assert_eq!(p.path[0].hash, entries[2].hash());
    assert_eq!(p.path[1].side, Side::Left);
}

#[test]
fn hash_pair_is_sha256_of_concatenation() {
    assert_eq!(hash_pair("a", "b"), "fb8e20fc2e4c3f248c60c39bd652f3c1347298bb977b8b4d5903b85055620603");
}

#[test]
fn power_of_two_helpers() {
    assert_eq!(largest_power_of_2_less_than(2), 1);
    assert_eq!(largest_power_of_2_less_than(5), 4);
    assert_eq!(largest_power_of_2_less_than(8), 4);
    assert_eq!(largest_power_of_2_less_than(9), 8);
    assert!(is_power_of_two(1));
    assert!(is_power_of_two(64));
    assert!(!is_power_of_two(0));
    assert!(!is_power_of_two(12));
}

#[test]
fn consistency_two_of_three_path() {
    let entries = make_entries(3);
    let tree = MerkleTree::build(&entries).unwrap();
    let proof = tree.consistency_proof(2).unwrap();
    assert_eq!(proof.path, vec![entries[2].hash().to_owned()]);
    assert!(verify_consistency(&proof));
}
