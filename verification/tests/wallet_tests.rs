use powchain::transaction::Transaction;
use powchain::wallet::Wallet;

#[test]
fn test_wallet_creation() {
    let wallet = Wallet::new();
    assert!(wallet.address.starts_with("0x"));
    assert_eq!(wallet.address.len(), 42);
}

#[test]
fn test_unique_addresses() {
    let w1 = Wallet::new();
    let w2 = Wallet::new();
    assert_ne!(w1.address, w2.address);
}

#[test]
fn test_sign_transaction_with_wallet() {
    let wallet = Wallet::new();
    let mut tx = Transaction::new_transfer(wallet.address.clone(), "0xrecipient".into(), 50);
    tx.sign(wallet.signing_key());
    assert!(tx.verify().unwrap());
}

#[test]
fn test_wallet_info() {
    let wallet = Wallet::new();
    let info = wallet.info();
    assert_eq!(info.address, wallet.address);
    assert_eq!(info.public_key, wallet.public_key_hex());
    assert_eq!(info.public_key.len(), 64);
}
