use powchain::crypto::ed25519_generate;
use powchain::transaction::{Transaction, TransactionType};

#[test]
fn test_create_transfer() {
    let tx = Transaction::new_transfer("alice".into(), "bob".into(), 100);
    assert_eq!(tx.sender, "alice");
    assert_eq!(tx.recipient, "bob");
    assert_eq!(tx.amount, 100);
    assert_eq!(tx.tx_type, TransactionType::Transfer);
}

#[test]
fn test_transaction_hash_deterministic() {
    let tx = Transaction {
        id: "test-id".into(),
        sender: "alice".into(),
        recipient: "bob".into(),
        amount: 100,
        data: vec![],
        tx_type: TransactionType::Transfer,
        timestamp: "2024-01-01 00:00:00 UTC".into(),
        signature: None,
        public_key: None,
    };
    let h1 = tx.hash();
    let h2 = tx.hash();
    assert_eq!(h1, h2);
}

#[test]
fn test_sign_and_verify() {
    let secret = ed25519_generate();
    let mut tx = Transaction::new_transfer("alice".into(), "bob".into(), 50);
    tx.sign(&secret);

    assert!(tx.signature.is_some());
    assert!(tx.verify().unwrap());
}

#[test]
fn test_system_transaction_no_signature() {
    let tx = Transaction::new_transfer("system".into(), "miner".into(), 50);
    assert!(tx.verify().unwrap());
}

#[test]
fn test_tampered_transaction_fails_verification() {
    let secret = ed25519_generate();
    let mut tx = Transaction::new_transfer("alice".into(), "bob".into(), 50);
    tx.sign(&secret);
    assert!(tx.verify().is_ok());

    let mut tampered = tx.clone();
    tampered.amount = 51;
    assert!(tampered.verify().is_err());

    let mut tampered = tx.clone();
    tampered.sender = "mallory".into();
    assert!(tampered.verify().is_err());

    let mut tampered = tx.clone();
    tampered.recipient = "mallory".into();
    assert!(tampered.verify().is_err());

    let mut tampered = tx.clone();
    tampered.id = "other-id".into();
    assert!(tampered.verify().is_err());

    let mut tampered = tx.clone();
    tampered.timestamp = "1999-01-01 00:00:00 UTC".into();
    assert!(tampered.verify().is_err());
}

#[test]
fn test_missing_signature_rejected() {
    let tx = Transaction::new_transfer("alice".into(), "bob".into(), 50);
    assert!(tx.verify().is_err());
}

#[test]
fn test_wrong_key_rejected() {
    let secret = ed25519_generate();
    let other = ed25519_generate();
    let mut tx = Transaction::new_transfer("alice".into(), "bob".into(), 50);
    tx.sign(&secret);
    tx.public_key = Some(powchain::crypto::ed25519_public_key(&other));
    assert!(tx.verify().is_err());
}

#[test]
fn test_contract_constructors() {
    let deploy = Transaction::new_contract_deploy("alice".into(), vec![1, 2, 3]);
    assert_eq!(deploy.tx_type, TransactionType::ContractDeploy);
    assert_eq!(deploy.data, vec![1, 2, 3]);
    assert_eq!(deploy.amount, 0);

    let call = Transaction::new_contract_call("alice".into(), "0xc0".into(), vec![9]);
    assert_eq!(call.tx_type, TransactionType::ContractCall);
    assert_eq!(call.recipient, "0xc0");
    assert_eq!(call.data, vec![9]);
}
