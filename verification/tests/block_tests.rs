use powchain::block::Block;
use powchain::transaction::Transaction;

#[test]
fn test_genesis_block() {
    let genesis = Block::genesis();
    assert_eq!(genesis.header.index, 0);
    assert!(genesis.transactions.is_empty());
    assert_eq!(genesis.header.previous_hash, "0".repeat(64));
}

#[test]
fn block_test_mine_block() {
    let txs = vec![Transaction::new_transfer("a".into(), "b".into(), 10)];
    let mut block = Block::new(1, "0".repeat(64), txs, 1);
    block.mine().unwrap();
    assert!(block.hash.starts_with("0"));
    assert!(block.is_valid());
}

#[test]
fn test_block_validity() {
    let mut block = Block::new(1, "0".repeat(64), vec![], 1);
    block.mine().unwrap();
    assert!(block.is_valid());

    block.header.nonce += 1;
    assert!(!block.is_valid());
}

#[test]
fn test_calculate_hash_deterministic() {
    let block = Block::new(1, "0".repeat(64), vec![], 1);
    let h1 = Block::calculate_hash(&block.header);
    let h2 = Block::calculate_hash(&block.header);
    assert_eq!(h1, h2);
    assert_eq!(h1.len(), 64);
}

#[test]
fn test_mined_hash_meets_difficulty() {
    let mut block = Block::new(1, "0".repeat(64), vec![], 2);
    block.mine().unwrap();
    assert!(block.hash.starts_with("00"));
    assert_eq!(block.hash, Block::calculate_hash(&block.header));
}
