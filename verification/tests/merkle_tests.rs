use r_blockchain::Block;
use r_blockchain::MerkleTree;
use r_blockchain::calculate_hash;

fn owner_arr(name: &str) -> [char; 25] {
    r_blockchain::string_to_arr::<25>(name)
}

fn block_with(transactions: Vec<String>) -> Block {
    Block::new(0, owner_arr("tester"), 0, transactions, 0, Vec::new())
}

#[test]
fn single_transaction_root_is_encoded_digest() {
    let mut tree = MerkleTree::new(block_with(vec!["tx".to_string()]));
    tree.build_tree();
    let root = tree.calculate_root().unwrap();
    let expected = tree.hash_to_string(tree.hash_transaction("tx".to_string()));
    assert_eq!(root, expected);
}

#[test]
fn build_nonempty_leaves_single_element() {
    for n in 1..9usize {
        let txs: Vec<String> = (0..n).map(|i| format!("tx{}", i)).collect();
        let mut tree = MerkleTree::new(block_with(txs));
        tree.build_tree();
        let built = tree.get_tree().unwrap();
        assert_eq!(built.len(), 1);
    }
}

#[test]
fn combine_pairs_halves_rounding_up() {
    let tree = MerkleTree::new(block_with(vec!["x".to_string()]));
    for (k, expected) in [(1usize, 1usize), (2, 1), (3, 2), (4, 2), (5, 3)] {
        let level: Vec<String> = (0..k).map(|i| format!("h{}", i)).collect();
        let combined = tree.combine_pairs(level).unwrap();
        assert_eq!(combined.len(), expected);
    }
}

#[test]
fn combine_pairs_empty_is_size_error() {
    let tree = MerkleTree::new(block_with(vec!["x".to_string()]));
    let err = tree.combine_pairs(Vec::new()).unwrap_err();
    assert_eq!(err.message(), "length of pairs must be greater than 0");
}

#[test]
fn odd_level_combines_last_with_itself() {
    let tree = MerkleTree::new(block_with(vec!["x".to_string()]));
    let enc_a = tree.hash_to_string(tree.hash_transaction("a".to_string()));
    let enc_b = tree.hash_to_string(tree.hash_transaction("b".to_string()));
    let enc_c = tree.hash_to_string(tree.hash_transaction("c".to_string()));
    let level = vec![enc_a, enc_b, enc_c.clone()];
    let combined = tree.combine_pairs(level).unwrap();
    assert_eq!(combined.len(), 2);
    let expected_last = tree.hash_to_string(calculate_hash(format!("{}{}", enc_c, enc_c)));
    assert_eq!(combined[1], expected_last);
}

#[test]
fn empty_transactions_root_is_size_error() {
    let mut tree = MerkleTree::new(block_with(Vec::new()));
    tree.build_tree();
    assert_eq!(tree.get_tree().unwrap().len(), 0);
    let err = tree.calculate_root().unwrap_err();
    assert_eq!(
        err.message(),
        "Merkle tree cannot be empty when trying to calculate Merkle Root"
    );
}

#[test]
fn root_before_build_is_size_error() {
    let tree = MerkleTree::new(block_with(vec!["tx".to_string()]));
    assert!(tree.calculate_root().is_err());
}

#[test]
fn transaction_order_changes_root() {
    let mut forward = MerkleTree::new(block_with(vec!["a".to_string(), "b".to_string()]));
    forward.build_tree();
    let mut backward = MerkleTree::new(block_with(vec!["b".to_string(), "a".to_string()]));
    backward.build_tree();
    assert_ne!(forward.calculate_root().unwrap(), backward.calculate_root().unwrap());
}

#[test]
fn two_transaction_root_matches_manual_combination() {
    let mut tree = MerkleTree::new(block_with(vec!["a".to_string(), "b".to_string()]));
    tree.build_tree();
    let enc_a = tree.hash_to_string(tree.hash_transaction("a".to_string()));
    let enc_b = tree.hash_to_string(tree.hash_transaction("b".to_string()));
    let expected = tree.hash_to_string(calculate_hash(format!("{}{}", enc_a, enc_b)));
    assert_eq!(tree.calculate_root().unwrap(), expected);
}

#[test]
fn new_tree_snapshots_transactions() {
    let txs = vec!["one".to_string(), "two".to_string()];
    let tree = MerkleTree::new(block_with(txs.clone()));
    assert_eq!(tree.transactions, txs);
    assert_eq!(tree.block.transactions, txs);
}
