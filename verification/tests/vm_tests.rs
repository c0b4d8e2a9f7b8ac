use powchain::errors::VmError;
use powchain::storage::Storage;
use powchain::vm::{OpCode, VM};

fn push_val(bytecode: &mut Vec<u8>, val: i64) {
    bytecode.push(OpCode::Push.to_byte());
    bytecode.extend_from_slice(&val.to_le_bytes());
}

#[test]
fn test_push_and_add() {
    let mut bytecode = Vec::new();
    push_val(&mut bytecode, 10);
    push_val(&mut bytecode, 20);
    bytecode.push(OpCode::Add.to_byte());
    bytecode.push(OpCode::Halt.to_byte());

    let mut vm = VM::new();
    let result = vm.execute(&bytecode).unwrap();
    assert_eq!(result.stack, vec![30]);
}

#[test]
fn test_arithmetic() {
    let mut bytecode = Vec::new();
    push_val(&mut bytecode, 100);
    push_val(&mut bytecode, 30);
    bytecode.push(OpCode::Sub.to_byte());
    bytecode.push(OpCode::Halt.to_byte());

    let mut vm = VM::new();
    let result = vm.execute(&bytecode).unwrap();
    assert_eq!(result.stack, vec![70]);
}

#[test]
fn test_store_and_load() {
    let mut bytecode = Vec::new();
    // Store 42 at key 0
    push_val(&mut bytecode, 0); // key
    push_val(&mut bytecode, 42); // value
    bytecode.push(OpCode::Store.to_byte());
    // Load key 0
    push_val(&mut bytecode, 0); // key
    bytecode.push(OpCode::Load.to_byte());
    bytecode.push(OpCode::Halt.to_byte());

    let mut vm = VM::new();
    let result = vm.execute(&bytecode).unwrap();
    assert_eq!(result.stack, vec![42]);
    assert_eq!(result.storage.get(0), Some(42));
}

#[test]
fn test_comparison() {
    let mut bytecode = Vec::new();
    push_val(&mut bytecode, 10);
    push_val(&mut bytecode, 20);
    bytecode.push(OpCode::Lt.to_byte());
    bytecode.push(OpCode::Halt.to_byte());

    let mut vm = VM::new();
    let result = vm.execute(&bytecode).unwrap();
    assert_eq!(result.stack, vec![1]);
}

#[test]
fn test_log() {
    let mut bytecode = Vec::new();
    push_val(&mut bytecode, 42);
    bytecode.push(OpCode::Log.to_byte());
    bytecode.push(OpCode::Halt.to_byte());

    let mut vm = VM::new();
    let result = vm.execute(&bytecode).unwrap();
    assert_eq!(result.logs, vec![42]);
}

#[test]
fn test_division_by_zero() {
    let mut bytecode = Vec::new();
    push_val(&mut bytecode, 10);
    push_val(&mut bytecode, 0);
    bytecode.push(OpCode::Div.to_byte());

    let mut vm = VM::new();
    let result = vm.execute(&bytecode);
    assert!(matches!(result, Err(VmError::DivisionByZero)));
}

#[test]
fn test_stack_underflow() {
    let mut bytecode = Vec::new();
    bytecode.push(OpCode::Pop.to_byte());

    let mut vm = VM::new();
    let result = vm.execute(&bytecode);
    assert!(matches!(result, Err(VmError::StackUnderflow { .. })));
}

#[test]
fn test_dup_and_swap() {
    let mut bytecode = Vec::new();
    push_val(&mut bytecode, 5);
    bytecode.push(OpCode::Dup.to_byte());
    bytecode.push(OpCode::Add.to_byte());
    bytecode.push(OpCode::Halt.to_byte());

    let mut vm = VM::new();
    let result = vm.execute(&bytecode).unwrap();
    assert_eq!(result.stack, vec![10]);
}

#[test]
fn test_with_existing_storage() {
    let mut storage = Storage::new();
    storage.insert(0, 100);

    let mut bytecode = Vec::new();
    push_val(&mut bytecode, 0);
    bytecode.push(OpCode::Load.to_byte());
    bytecode.push(OpCode::Halt.to_byte());

    let mut vm = VM::new().with_storage(storage);
    let result = vm.execute(&bytecode).unwrap();
    assert_eq!(result.stack, vec![100]);
}

#[test]
fn test_gas_limit_exceeded() {
    // PUSH 0; JUMP loops back to the start forever.
    let mut bytecode = Vec::new();
    push_val(&mut bytecode, 0);
    bytecode.push(OpCode::Jump.to_byte());

    let mut vm = VM::new();
    let result = vm.execute(&bytecode);
    assert!(matches!(result, Err(VmError::GasLimitExceeded(100000))));
}

#[test]
fn test_invalid_opcode() {
    let bytecode = vec![0xFFu8];
    let mut vm = VM::new();
    let result = vm.execute(&bytecode);
    assert!(matches!(result, Err(VmError::InvalidOpcode(0xFF))));
}

#[test]
fn test_invalid_jump() {
    let mut bytecode = Vec::new();
    push_val(&mut bytecode, 99);
    bytecode.push(OpCode::Jump.to_byte());
    let mut vm = VM::new();
    let result = vm.execute(&bytecode);
    assert!(matches!(result, Err(VmError::InvalidJump(99))));
}

#[test]
fn test_push_truncated_immediate() {
    let bytecode = vec![OpCode::Push.to_byte(), 1, 2, 3];
    let mut vm = VM::new();
    let result = vm.execute(&bytecode);
    assert!(matches!(result, Err(VmError::PcOutOfBounds { .. })));
}

#[test]
fn test_stack_overflow() {
    let mut bytecode = Vec::new();
    for _ in 0..1025 {
        push_val(&mut bytecode, 7);
    }
    let mut vm = VM::new();
    let result = vm.execute(&bytecode);
    assert!(matches!(result, Err(VmError::StackOverflow(1024))));
}

#[test]
fn test_wrapping_arithmetic() {
    // i64::MAX + 1 wraps to i64::MIN.
    let mut bytecode = Vec::new();
    push_val(&mut bytecode, i64::MAX);
    push_val(&mut bytecode, 1);
    bytecode.push(OpCode::Add.to_byte());
    bytecode.push(OpCode::Halt.to_byte());
    let mut vm = VM::new();
    let result = vm.execute(&bytecode).unwrap();
    assert_eq!(result.stack, vec![i64::MIN]);
}

#[test]
fn test_signed_division_truncates() {
    let mut bytecode = Vec::new();
    push_val(&mut bytecode, -7);
    push_val(&mut bytecode, 2);
    bytecode.push(OpCode::Div.to_byte());
    bytecode.push(OpCode::Halt.to_byte());
    let mut vm = VM::new();
    let result = vm.execute(&bytecode).unwrap();
    assert_eq!(result.stack, vec![-3]);

    let mut bytecode = Vec::new();
    push_val(&mut bytecode, -7);
    push_val(&mut bytecode, 2);
    bytecode.push(OpCode::Mod.to_byte());
    bytecode.push(OpCode::Halt.to_byte());
    let mut vm = VM::new();
    let result = vm.execute(&bytecode).unwrap();
    assert_eq!(result.stack, vec![-1]);
}

#[test]
fn test_jumpif_taken_and_not_taken() {
    // condition 1: jump over the first HALT to a LOG.
    let mut bytecode = Vec::new();
    push_val(&mut bytecode, 1); // condition
    push_val(&mut bytecode, 20); // target: the PUSH after HALT
    bytecode.push(OpCode::JumpIf.to_byte()); // offset 18
    bytecode.push(OpCode::Halt.to_byte()); // offset 19
    push_val(&mut bytecode, 77); // offset 20
    bytecode.push(OpCode::Log.to_byte());
    bytecode.push(OpCode::Halt.to_byte());
    let mut vm = VM::new();
    let result = vm.execute(&bytecode).unwrap();
    assert_eq!(result.logs, vec![77]);

    // condition 0: fall through to the HALT.
    let mut bytecode = Vec::new();
    push_val(&mut bytecode, 0);
    push_val(&mut bytecode, 20);
    bytecode.push(OpCode::JumpIf.to_byte());
    bytecode.push(OpCode::Halt.to_byte());
    push_val(&mut bytecode, 77);
    bytecode.push(OpCode::Log.to_byte());
    bytecode.push(OpCode::Halt.to_byte());
    let mut vm = VM::new();
    let result = vm.execute(&bytecode).unwrap();
    assert_eq!(result.logs, Vec::<i64>::new());
}

#[test]
fn test_opcode_byte_roundtrip() {
    let ops = [
        OpCode::Push,
        OpCode::Pop,
        OpCode::Dup,
        OpCode::Swap,
        OpCode::Add,
        OpCode::Sub,
        OpCode::Mul,
        OpCode::Div,
        OpCode::Mod,
        OpCode::Eq,
        OpCode::Lt,
        OpCode::Gt,
        OpCode::Not,
        OpCode::Jump,
        OpCode::JumpIf,
        OpCode::Halt,
        OpCode::Store,
        OpCode::Load,
        OpCode::Log,
    ];
    for op in ops {
        assert_eq!(OpCode::from_byte(op.to_byte()), Some(op));
    }
    assert_eq!(OpCode::from_byte(0x00), None);
    assert_eq!(OpCode::from_byte(0xFF), None);
}
