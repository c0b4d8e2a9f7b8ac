use powchain::compiler::compile;
use powchain::errors::VmError;
use powchain::vm::{OpCode, VM};

#[test]
fn test_compile_and_run() {
    let source = r#"
            PUSH 10
            PUSH 20
            ADD
            HALT
        "#;
    let bytecode = compile(source).unwrap();
    let mut vm = VM::new();
    let result = vm.execute(&bytecode).unwrap();
    assert_eq!(result.stack, vec![30]);
}

#[test]
fn test_compile_with_comments() {
    let source = r#"
            # This adds two numbers
            PUSH 5
            PUSH 3
            ADD  ; add them
            LOG
            HALT
        "#;
    let bytecode = compile(source).unwrap();
    let mut vm = VM::new();
    let result = vm.execute(&bytecode).unwrap();
    assert_eq!(result.logs, vec![8]);
}

#[test]
fn test_compile_store_load() {
    let source = r#"
            PUSH 0
            PUSH 42
            STORE
            PUSH 0
            LOAD
            HALT
        "#;
    let bytecode = compile(source).unwrap();
    let mut vm = VM::new();
    let result = vm.execute(&bytecode).unwrap();
    assert_eq!(result.stack, vec![42]);
}

#[test]
fn test_compile_unknown_instruction() {
    let source = "UNKNOWN 42";
    let result = compile(source);
    assert!(matches!(result, Err(VmError::CompileError(_))));
}

#[test]
fn test_compile_push_missing_value() {
    let source = "PUSH";
    let result = compile(source);
    assert!(matches!(result, Err(VmError::CompileError(_))));
}

#[test]
fn test_compile_case_insensitive() {
    let bytecode = compile("push 1\nPoP\nhalt").unwrap();
    assert_eq!(bytecode[0], OpCode::Push.to_byte());
    assert_eq!(bytecode[9], OpCode::Pop.to_byte());
    assert_eq!(bytecode[10], OpCode::Halt.to_byte());
}

#[test]
fn test_compile_exact_bytes() {
    let bytecode = compile("PUSH -5\nHALT").unwrap();
    let mut expected = vec![OpCode::Push.to_byte()];
    expected.extend_from_slice(&(-5i64).to_le_bytes());
    expected.push(OpCode::Halt.to_byte());
    assert_eq!(bytecode, expected);
}

#[test]
fn test_compile_error_names_line() {
    let source = "PUSH 1\n\nFROB";
    match compile(source) {
        Err(VmError::CompileError(msg)) => {
            assert_eq!(msg, "Line 3: unknown instruction");
        }
        other => panic!("expected a compile error, got {:?}", other),
    }
}

#[test]
fn test_compile_bad_number() {
    let source = "PUSH abc";
    match compile(source) {
        Err(VmError::CompileError(msg)) => {
            assert_eq!(msg, "Line 1: invalid number");
        }
        other => panic!("expected a compile error, got {:?}", other),
    }
}

#[test]
fn test_compile_number_range() {
    // Both extremes parse; one past them does not.
    assert!(compile("PUSH 9223372036854775807").is_ok());
    assert!(compile("PUSH -9223372036854775808").is_ok());
    assert!(compile("PUSH 9223372036854775808").is_err());
    assert!(compile("PUSH -9223372036854775809").is_err());
}

#[test]
fn test_compile_empty_source() {
    assert_eq!(compile("").unwrap(), Vec::<u8>::new());
    assert_eq!(compile("\n\n   \n# only a comment\n").unwrap(), Vec::<u8>::new());
}

#[test]
fn test_compile_unicode_whitespace() {
    // Non-breaking space and em-quad separate tokens like ASCII blanks.
    let source = "PUSH\u{a0}7\n\u{2003}HALT";
    let bytecode = compile(source).unwrap();
    let mut expected = vec![OpCode::Push.to_byte()];
    expected.extend_from_slice(&7i64.to_le_bytes());
    expected.push(OpCode::Halt.to_byte());
    assert_eq!(bytecode, expected);
}
