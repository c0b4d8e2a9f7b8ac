use powchain::state::WorldState;

#[test]
fn test_credit_and_balance() {
    let mut state = WorldState::new();
    state.credit("alice", 1000);
    assert_eq!(state.get_balance("alice"), 1000);
}

#[test]
fn test_transfer() {
    let mut state = WorldState::new();
    state.credit("alice", 1000);
    assert!(state.transfer("alice", "bob", 300));
    assert_eq!(state.get_balance("alice"), 700);
    assert_eq!(state.get_balance("bob"), 300);
}

#[test]
fn test_transfer_insufficient() {
    let mut state = WorldState::new();
    state.credit("alice", 100);
    assert!(!state.transfer("alice", "bob", 200));
    assert_eq!(state.get_balance("alice"), 100);
}

#[test]
fn test_deploy_contract() {
    let mut state = WorldState::new();
    state.deploy_contract("contract1".into(), vec![1, 2, 3], "alice".into());
    let contract = state.get_contract("contract1").unwrap();
    assert_eq!(contract.bytecode, vec![1, 2, 3]);
    assert_eq!(contract.owner, "alice");
}

#[test]
fn test_debit_counts_nonce() {
    let mut state = WorldState::new();
    state.credit("alice", 10);
    assert!(state.debit("alice", 4));
    assert!(state.debit("alice", 4));
    assert!(!state.debit("alice", 4));
    let account = state.get_account("alice").unwrap();
    assert_eq!(account.balance, 2);
    assert_eq!(account.nonce, 2);
}

#[test]
fn test_supply_conserved_by_transfer() {
    let mut state = WorldState::new();
    state.credit("alice", 600);
    state.credit("bob", 400);
    let total_before: u64 = state.accounts().iter().map(|(_, a)| a.balance).sum();
    assert!(state.transfer("alice", "bob", 250));
    let total_after: u64 = state.accounts().iter().map(|(_, a)| a.balance).sum();
    assert_eq!(total_before, 1000);
    assert_eq!(total_after, 1000);
}

#[test]
fn test_transfer_to_self() {
    let mut state = WorldState::new();
    state.credit("alice", 50);
    assert!(state.transfer("alice", "alice", 50));
    assert_eq!(state.get_balance("alice"), 50);
}
