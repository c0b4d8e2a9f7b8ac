use powchain::compiler::compile;
use powchain::contract::ContractExecutor;
use powchain::state::WorldState;

#[test]
fn test_deploy_and_call() {
    let mut state = WorldState::new();

    let source = r#"
            PUSH 0
            PUSH 42
            STORE
            PUSH 0
            LOAD
            DUP
            LOG
            HALT
        "#;
    let bytecode = compile(source).unwrap();

    let address = ContractExecutor::deploy(&mut state, "alice", bytecode).unwrap();
    assert!(address.starts_with("0xc"));

    let result = ContractExecutor::call(&mut state, &address, &[]).unwrap();
    assert_eq!(result.logs, vec![42]);
    assert_eq!(result.stack_top, Some(42));
}

#[test]
fn test_call_nonexistent_contract() {
    let mut state = WorldState::new();
    let result = ContractExecutor::call(&mut state, "0xnotfound", &[]);
    assert!(result.is_err());
}

#[test]
fn test_contract_storage_persists() {
    let mut state = WorldState::new();

    let source = r#"
            PUSH 0
            PUSH 100
            STORE
            HALT
        "#;
    let bytecode = compile(source).unwrap();
    let address = ContractExecutor::deploy(&mut state, "alice", bytecode).unwrap();

    ContractExecutor::call(&mut state, &address, &[]).unwrap();

    let contract = state.get_contract(&address).unwrap();
    assert_eq!(contract.storage.get(0), Some(100));
}

#[test]
fn test_contract_roundtrip_storage_and_logs() {
    let mut state = WorldState::new();
    let source = "PUSH 0\nPUSH 42\nSTORE\nPUSH 0\nLOAD\nDUP\nLOG\nHALT";
    let bytecode = compile(source).unwrap();
    let address = ContractExecutor::deploy(&mut state, "alice", bytecode).unwrap();
    assert_eq!(address.len(), 42);
    assert!(address.starts_with("0xc"));
    let result = ContractExecutor::call(&mut state, &address, &[]).unwrap();
    assert_eq!(result.logs, vec![42]);
    assert_eq!(result.stack_top, Some(42));
    let contract = state.get_contract(&address).unwrap();
    assert_eq!(contract.storage.get(0), Some(42));
    assert_eq!(contract.owner, "alice");
}

#[test]
fn test_failed_call_leaves_storage() {
    let mut state = WorldState::new();
    // Stores 7, then underflows the stack.
    let bytecode = compile("PUSH 0\nPUSH 7\nSTORE\nPOP").unwrap();
    let address = ContractExecutor::deploy(&mut state, "alice", bytecode).unwrap();
    assert!(ContractExecutor::call(&mut state, &address, &[]).is_err());
    let contract = state.get_contract(&address).unwrap();
    assert_eq!(contract.storage.get(0), None);
}
