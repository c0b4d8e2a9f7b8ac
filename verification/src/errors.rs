//! Error kinds of the chain engine and of the virtual machine.

use vstd::prelude::*;

verus! {

/// Errors of the chain and state engine.
#[derive(Debug)]
pub enum CoreError {
    InvalidBlock(String),
    InvalidTransaction(String),
    InvalidChain(String),
    InsufficientBalance { account: String, balance: u64, required: u64 },
    InvalidSignature(String),
    DuplicateTransaction(String),
    AccountNotFound(String),
    ContractNotFound(String),
    Serialization(String),
    MiningError(String),
}

pub type CoreResult<T> = Result<T, CoreError>;

/// Errors of the virtual machine and its assembler.
#[derive(Debug)]
pub enum VmError {
    StackOverflow(usize),
    StackUnderflow { needed: usize, got: usize },
    GasLimitExceeded(u64),
    InvalidOpcode(u8),
    DivisionByZero,
    InvalidJump(usize),
    PcOutOfBounds { pc: usize, len: usize },
    CompileError(String),
    ContractError(String),
}

pub type VmResult<T> = Result<T, VmError>;

} // verus!
