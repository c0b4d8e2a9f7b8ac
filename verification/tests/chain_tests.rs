use powchain::chain::Blockchain;
use powchain::errors::CoreError;
use powchain::transaction::Transaction;
use powchain::wallet::Wallet;

#[test]
fn test_new_blockchain() {
    let bc = Blockchain::new(1, 50);
    assert_eq!(bc.chain().len(), 1);
    assert_eq!(bc.height(), 1);
}

#[test]
fn chain_test_mine_block() {
    let mut bc = Blockchain::new(1, 50);
    let block = bc.mine_pending("miner").unwrap();
    assert_eq!(block.header.index, 1);
    assert_eq!(bc.chain().len(), 2);
    assert!(bc.is_chain_valid());
}

#[test]
fn test_mine_with_transactions() {
    let mut bc = Blockchain::new(1, 50);

    // First mine to give miner some coins
    bc.mine_pending("miner").unwrap();
    assert_eq!(bc.state().get_balance("miner"), 50);

    // Create and sign transfer
    let wallet = Wallet::new();
    bc.state.credit(&wallet.address, 1000);

    let mut tx = Transaction::new_transfer(wallet.address.clone(), "bob".into(), 100);
    tx.sign(wallet.signing_key());
    bc.add_transaction(tx).unwrap();

    bc.mine_pending("miner").unwrap();
    assert_eq!(bc.state().get_balance("bob"), 100);
    assert_eq!(bc.state().get_balance(&wallet.address), 900);
}

#[test]
fn test_insufficient_balance() {
    let mut bc = Blockchain::new(1, 50);
    let wallet = Wallet::new();

    let mut tx = Transaction::new_transfer(wallet.address.clone(), "bob".into(), 100);
    tx.sign(wallet.signing_key());
    let result = bc.add_transaction(tx);
    assert!(result.is_err());
}

#[test]
fn test_chain_validation() {
    let mut bc = Blockchain::new(1, 50);
    bc.mine_pending("miner1").unwrap();
    bc.mine_pending("miner2").unwrap();
    assert!(bc.is_chain_valid());
}

#[test]
fn test_mine_empty_mempool_pays_reward() {
    let mut bc = Blockchain::new(1, 50);
    let block = bc.mine_pending("miner").unwrap();
    assert_eq!(bc.height(), 2);
    assert_eq!(block.transactions.len(), 1);
    let reward = &block.transactions[0];
    assert_eq!(reward.sender, "system");
    assert_eq!(reward.recipient, "miner");
    assert_eq!(reward.amount, 50);
    assert_eq!(bc.state().get_balance("miner"), 50);
}

#[test]
fn test_insufficient_balance_error_kind() {
    let mut bc = Blockchain::new(1, 50);
    let wallet = Wallet::new();
    let mut tx = Transaction::new_transfer(wallet.address.clone(), "bob".into(), 100);
    tx.sign(wallet.signing_key());
    match bc.add_transaction(tx) {
        Err(CoreError::InsufficientBalance { account, balance, required }) => {
            assert_eq!(account, wallet.address);
            assert_eq!(balance, 0);
            assert_eq!(required, 100);
        }
        other => panic!("expected an insufficient balance error, got {:?}", other),
    }
}

#[test]
fn test_unsigned_transfer_rejected() {
    let mut bc = Blockchain::new(1, 50);
    bc.state.credit("carol", 500);
    let tx = Transaction::new_transfer("carol".into(), "bob".into(), 100);
    assert!(matches!(
        bc.add_transaction(tx),
        Err(CoreError::InvalidSignature(_))
    ));
}

#[test]
fn test_replace_chain_longer_wins() {
    let mut a = Blockchain::new(1, 50);
    a.mine_pending("miner-a").unwrap();
    a.mine_pending("miner-a").unwrap();

    let mut b = Blockchain::new(1, 50);
    b.mine_pending("miner-b").unwrap();

    // The longer chain from node a replaces node b's chain, and b's state
    // becomes the replay of a's transfers.
    b.replace_chain(a.chain().clone()).unwrap();
    assert_eq!(b.height(), a.height());
    assert_eq!(b.state().get_balance("miner-a"), 100);
    assert_eq!(b.state().get_balance("miner-b"), 0);
    assert!(b.is_chain_valid());
}

#[test]
fn test_replace_chain_rejects_shorter() {
    let mut a = Blockchain::new(1, 50);
    a.mine_pending("miner-a").unwrap();

    let mut b = Blockchain::new(1, 50);
    b.mine_pending("miner-b").unwrap();
    b.mine_pending("miner-b").unwrap();

    let result = b.replace_chain(a.chain().clone());
    assert!(matches!(result, Err(CoreError::InvalidChain(_))));
    assert_eq!(b.state().get_balance("miner-b"), 100);
}

#[test]
fn test_replace_chain_rejects_tampered() {
    let mut a = Blockchain::new(1, 50);
    a.mine_pending("miner-a").unwrap();
    a.mine_pending("miner-a").unwrap();

    let mut chain = a.chain().clone();
    chain[1].header.nonce = chain[1].header.nonce.wrapping_add(1);

    let mut b = Blockchain::new(1, 50);
    b.mine_pending("miner-b").unwrap();
    assert!(b.replace_chain(chain).is_err());
}

#[test]
fn test_mined_block_hash_meets_difficulty() {
    let mut bc = Blockchain::new(1, 50);
    let block = bc.mine_pending("miner").unwrap();
    assert!(block.hash.starts_with("0"));
    assert!(block.is_valid());
    assert_eq!(block.header.previous_hash, bc.chain()[0].hash);
}

#[test]
fn test_supply_grows_only_by_rewards() {
    let mut bc = Blockchain::new(1, 50);
    bc.mine_pending("miner").unwrap();
    let wallet = Wallet::new();
    bc.state.credit(&wallet.address, 1000);

    let mut tx = Transaction::new_transfer(wallet.address.clone(), "bob".into(), 400);
    tx.sign(wallet.signing_key());
    bc.add_transaction(tx).unwrap();
    bc.mine_pending("miner").unwrap();

    // 2 rewards of 50 plus the hand-credited 1000; the transfer minted
    // nothing.
    let total: u64 = bc.state().accounts().iter().map(|(_, a)| a.balance).sum();
    assert_eq!(total, 1100);
    assert_eq!(bc.state().get_balance("bob"), 400);
}
