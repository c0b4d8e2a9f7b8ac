use powchain::merkle::MerkleTree;
use powchain::transaction::Transaction;

#[test]
fn test_empty_merkle_root() {
    let root = MerkleTree::root(&[]);
    assert!(!root.is_empty());
}

#[test]
fn test_single_transaction_merkle() {
    let tx = Transaction::new_transfer("a".into(), "b".into(), 10);
    let root = MerkleTree::root(&[tx]);
    assert!(!root.is_empty());
    assert_eq!(root.len(), 64);
}

#[test]
fn test_merkle_deterministic() {
    let txs = vec![
        Transaction::new_transfer("a".into(), "b".into(), 10),
        Transaction::new_transfer("c".into(), "d".into(), 20),
    ];
    let r1 = MerkleTree::root(&txs);
    let r2 = MerkleTree::root(&txs);
    assert_eq!(r1, r2);
}

#[test]
fn test_merkle_order_matters() {
    let a = Transaction::new_transfer("a".into(), "b".into(), 10);
    let b = Transaction::new_transfer("c".into(), "d".into(), 20);
    let r1 = MerkleTree::root(&[a.clone(), b.clone()]);
    let r2 = MerkleTree::root(&[b, a]);
    assert_ne!(r1, r2);
}

#[test]
fn test_merkle_odd_count() {
    let txs = vec![
        Transaction::new_transfer("a".into(), "b".into(), 1),
        Transaction::new_transfer("c".into(), "d".into(), 2),
        Transaction::new_transfer("e".into(), "f".into(), 3),
    ];
    let root = MerkleTree::root(&txs);
    assert_eq!(root.len(), 64);
}
