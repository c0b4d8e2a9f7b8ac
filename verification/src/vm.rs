//! The stack virtual machine: a deterministic interpreter of a flat bytecode
//! with bounded stack depth and step count, persistent key-value storage and
//! an event log. The interpreter is specified by a small-step spec
//! interpreter, `vm_run`, and the executable loop is proved to realize it.

use vstd::prelude::*;

use crate::errors::{VmError, VmResult};
use crate::storage::Storage;

verus! {

/// Deepest stack the machine accepts.
pub const MAX_STACK_SIZE: usize = 1024;

/// Most instruction steps one execution may take.
pub const MAX_STEPS: u64 = 100000;

/// The instruction set.
#[derive(Debug, Clone, Copy, PartialEq, Eq, Structural)]
pub enum OpCode {
    Push,
    Pop,
    Dup,
    Swap,
    Add,
    Sub,
    Mul,
    Div,
    Mod,
    Eq,
    Lt,
    Gt,
    Not,
    Jump,
    JumpIf,
    Halt,
    Store,
    Load,
    Log,
}

/// The encoding byte of each opcode.
pub open spec fn opcode_byte(op: OpCode) -> u8 {
    match op {
        OpCode::Push => 0x01,
        OpCode::Pop => 0x02,
        OpCode::Dup => 0x03,
        OpCode::Swap => 0x04,
        OpCode::Add => 0x10,
        OpCode::Sub => 0x11,
        OpCode::Mul => 0x12,
        OpCode::Div => 0x13,
        OpCode::Mod => 0x14,
        OpCode::Eq => 0x20,
        OpCode::Lt => 0x21,
        OpCode::Gt => 0x22,
        OpCode::Not => 0x23,
        OpCode::Jump => 0x30,
        OpCode::JumpIf => 0x31,
        OpCode::Halt => 0x3F,
        OpCode::Store => 0x40,
        OpCode::Load => 0x41,
        OpCode::Log => 0x50,
    }
}

/// The opcode encoded by a byte, if any.
pub open spec fn opcode_of(b: u8) -> Option<OpCode> {
    if b == 0x01 {
        Some(OpCode::Push)
    } else if b == 0x02 {
        Some(OpCode::Pop)
    } else if b == 0x03 {
        Some(OpCode::Dup)
    } else if b == 0x04 {
        Some(OpCode::Swap)
    } else if b == 0x10 {
        Some(OpCode::Add)
    } else if b == 0x11 {
        Some(OpCode::Sub)
    } else if b == 0x12 {
        Some(OpCode::Mul)
    } else if b == 0x13 {
        Some(OpCode::Div)
    } else if b == 0x14 {
        Some(OpCode::Mod)
    } else if b == 0x20 {
        Some(OpCode::Eq)
    } else if b == 0x21 {
        Some(OpCode::Lt)
    } else if b == 0x22 {
        Some(OpCode::Gt)
    } else if b == 0x23 {
        Some(OpCode::Not)
    } else if b == 0x30 {
        Some(OpCode::Jump)
    } else if b == 0x31 {
        Some(OpCode::JumpIf)
    } else if b == 0x3F {
        Some(OpCode::Halt)
    } else if b == 0x40 {
        Some(OpCode::Store)
    } else if b == 0x41 {
        Some(OpCode::Load)
    } else if b == 0x50 {
        Some(OpCode::Log)
    } else {
        None
    }
}

impl OpCode {
    /// Decodes one byte into an opcode.
    pub fn from_byte(byte: u8) -> (r: Option<OpCode>)
        ensures
            r == opcode_of(byte),
    {
        match byte {
            0x01 => Some(OpCode::Push),
            0x02 => Some(OpCode::Pop),
            0x03 => Some(OpCode::Dup),
            0x04 => Some(OpCode::Swap),
            0x10 => Some(OpCode::Add),
            0x11 => Some(OpCode::Sub),
            0x12 => Some(OpCode::Mul),
            0x13 => Some(OpCode::Div),
            0x14 => Some(OpCode::Mod),
            0x20 => Some(OpCode::Eq),
            0x21 => Some(OpCode::Lt),
            0x22 => Some(OpCode::Gt),
            0x23 => Some(OpCode::Not),
            0x30 => Some(OpCode::Jump),
            0x31 => Some(OpCode::JumpIf),
            0x3F => Some(OpCode::Halt),
            0x40 => Some(OpCode::Store),
            0x41 => Some(OpCode::Load),
            0x50 => Some(OpCode::Log),
            _ => None,
        }
    }

    /// Encodes the opcode as its byte.
    pub fn to_byte(self) -> (r: u8)
        ensures
            r == opcode_byte(self),
    {
        match self {
            OpCode::Push => 0x01,
            OpCode::Pop => 0x02,
            OpCode::Dup => 0x03,
            OpCode::Swap => 0x04,
            OpCode::Add => 0x10,
            OpCode::Sub => 0x11,
            OpCode::Mul => 0x12,
            OpCode::Div => 0x13,
            OpCode::Mod => 0x14,
            OpCode::Eq => 0x20,
            OpCode::Lt => 0x21,
            OpCode::Gt => 0x22,
            OpCode::Not => 0x23,
            OpCode::Jump => 0x30,
            OpCode::JumpIf => 0x31,
            OpCode::Halt => 0x3F,
            OpCode::Store => 0x40,
            OpCode::Load => 0x41,
            OpCode::Log => 0x50,
        }
    }
}

/// The unsigned value read little-endian from eight bytes.
pub open spec fn le_u64_of(b: Seq<u8>) -> u64
    recommends
        b.len() == 8,
{
    (b[0] + b[1] * 0x100 + b[2] * 0x1_0000 + b[3] * 0x100_0000 + b[4] * 0x1_0000_0000 + b[5]
        * 0x100_0000_0000 + b[6] * 0x1_0000_0000_0000 + b[7] * 0x100_0000_0000_0000) as u64
}

/// The signed value read little-endian from eight bytes (two's complement).
pub open spec fn i64_from_le(b: Seq<u8>) -> i64
    recommends
        b.len() == 8,
{
    le_u64_of(b) as i64
}

/// The eight-byte little-endian encoding of a signed value.
pub open spec fn i64_le_of(v: i64) -> Seq<u8> {
    let u = v as u64;
    seq![
        (u % 0x100) as u8,
        ((u / 0x100) % 0x100) as u8,
        ((u / 0x1_0000) % 0x100) as u8,
        ((u / 0x100_0000) % 0x100) as u8,
        ((u / 0x1_0000_0000) % 0x100) as u8,
        ((u / 0x100_0000_0000) % 0x100) as u8,
        ((u / 0x1_0000_0000_0000) % 0x100) as u8,
        (u / 0x100_0000_0000_0000) as u8,
    ]
}

/// Little-endian encoding round-trips through decoding.
pub proof fn lemma_i64_le_roundtrip(v: i64)
    ensures
        i64_le_of(v).len() == 8,
        i64_from_le(i64_le_of(v)) == v,
{
    let u = v as u64;
    assert(le_u64_of(i64_le_of(v)) == u) by {
        assert(u % 0x100 + ((u / 0x100) % 0x100) * 0x100 + ((u / 0x1_0000) % 0x100) * 0x1_0000 + ((
        u / 0x100_0000) % 0x100) * 0x100_0000 + ((u / 0x1_0000_0000) % 0x100) * 0x1_0000_0000 + ((u
            / 0x100_0000_0000) % 0x100) * 0x100_0000_0000 + ((u / 0x1_0000_0000_0000) % 0x100)
            * 0x1_0000_0000_0000 + (u / 0x100_0000_0000_0000) * 0x100_0000_0000_0000 == u)
            by (bit_vector);
    }
    assert(((v as u64) as i64) == v) by (bit_vector);
}

/// Encodes a signed value as eight little-endian bytes.
pub fn i64_to_le_bytes(v: i64) -> (r: Vec<u8>)
    ensures
        r@ == i64_le_of(v),
        r@.len() == 8,
{
    let u: u64 = #[verifier::truncate] (v as u64);
    let mut r: Vec<u8> = Vec::new();
    r.push(#[verifier::truncate] ((u % 0x100) as u8));
    r.push(#[verifier::truncate] (((u / 0x100) % 0x100) as u8));
    r.push(#[verifier::truncate] (((u / 0x1_0000) % 0x100) as u8));
    r.push(#[verifier::truncate] (((u / 0x100_0000) % 0x100) as u8));
    r.push(#[verifier::truncate] (((u / 0x1_0000_0000) % 0x100) as u8));
    r.push(#[verifier::truncate] (((u / 0x100_0000_0000) % 0x100) as u8));
    r.push(#[verifier::truncate] (((u / 0x1_0000_0000_0000) % 0x100) as u8));
    r.push(#[verifier::truncate] ((u / 0x100_0000_0000_0000) as u8));
    proof {
        assert(u / 0x100_0000_0000_0000 < 0x100) by (bit_vector);
        assert(r@ =~= i64_le_of(v));
    }
    r
}

/// The absolute value of a signed 64-bit integer, as unsigned.
pub open spec fn abs_of(a: i64) -> int {
    if a >= 0 {
        a as int
    } else {
        -(a as int)
    }
}

/// Truncating signed division as the machine performs it: rounds toward
/// zero; the one overflowing quotient wraps to the minimum value.
pub open spec fn trunc_div(a: i64, b: i64) -> i64
    recommends
        b != 0,
{
    if a == i64::MIN && b == -1 {
        i64::MIN
    } else {
        let q = abs_of(a) / abs_of(b);
        if (a < 0) != (b < 0) {
            (-q) as i64
        } else {
            q as i64
        }
    }
}

/// Truncating signed remainder: the sign follows the dividend; the one
/// overflowing case yields zero.
pub open spec fn trunc_rem(a: i64, b: i64) -> i64
    recommends
        b != 0,
{
    if a == i64::MIN && b == -1 {
        0
    } else {
        let r = abs_of(a) % abs_of(b);
        if a < 0 {
            (-r) as i64
        } else {
            r as i64
        }
    }
}

/// The magnitude of a signed value as a u64.
fn abs_u64(a: i64) -> (r: u64)
    ensures
        r == abs_of(a),
{
    if a >= 0 {
        a as u64
    } else {
        ((-(a + 1)) as u64) + 1
    }
}

/// Computes the truncating quotient of two signed values.
pub fn div_trunc(a: i64, b: i64) -> (r: i64)
    requires
        b != 0,
    ensures
        r == trunc_div(a, b),
{
    if a == i64::MIN && b == -1 {
        i64::MIN
    } else {
        let ua = abs_u64(a);
        let ub = abs_u64(b);
        let uq = ua / ub;
        if (a < 0) != (b < 0) {
            if uq == 0x8000_0000_0000_0000u64 {
                i64::MIN
            } else {
                proof {
                    assert(uq < 0x8000_0000_0000_0000);
                }
                -(uq as i64)
            }
        } else {
            proof {
                assert(uq * ub <= ua && uq <= ua) by (nonlinear_arith)
                    requires
                        ub > 0,
                        uq == ua / ub,
                ;
                if a == i64::MIN {
                    assert(b < 0);
                    assert(ub >= 2);
                    assert(2 * uq <= uq * ub) by (nonlinear_arith)
                        requires
                            ub >= 2,
                            uq >= 0,
                    ;
                }
            }
            uq as i64
        }
    }
}

/// Computes the truncating remainder of two signed values.
pub fn rem_trunc(a: i64, b: i64) -> (r: i64)
    requires
        b != 0,
    ensures
        r == trunc_rem(a, b),
{
    if a == i64::MIN && b == -1 {
        0
    } else {
        let ua = abs_u64(a);
        let ub = abs_u64(b);
        let ur = ua % ub;
        proof {
            assert(ur < ub && ur <= ua) by (nonlinear_arith)
                requires
                    ub > 0,
                    ur == ua % ub,
            ;
        }
        if a < 0 {
            if ur == 0 {
                0
            } else {
                -((ur - 1) as i64) - 1
            }
        } else {
            ur as i64
        }
    }
}


/// A snapshot of the machine during execution.
pub struct VmState {
    pub stack: Seq<i64>,
    pub pc: nat,
    pub storage: Map<u64, i64>,
    pub logs: Seq<i64>,
    pub steps: nat,
}

/// What one execution yields: a final state, or the error that stopped it.
pub enum VmOutcome {
    Done(VmState),
    Fail(VmError),
}

/// Pushing onto the bounded stack.
pub open spec fn spec_push(stack: Seq<i64>, v: i64) -> Result<Seq<i64>, VmError> {
    if stack.len() >= MAX_STACK_SIZE {
        Err(VmError::StackOverflow(MAX_STACK_SIZE))
    } else {
        Ok(stack.push(v))
    }
}

/// Popping the top of the stack.
pub open spec fn spec_pop(stack: Seq<i64>) -> Result<(i64, Seq<i64>), VmError> {
    if stack.len() == 0 {
        Err(VmError::StackUnderflow { needed: 1, got: 0 })
    } else {
        Ok((stack.last(), stack.drop_last()))
    }
}

/// The jump-target interpretation of a stack value.
pub open spec fn target_of(v: i64) -> usize {
    v as usize
}

/// The storage-key interpretation of a stack value.
pub open spec fn key_of(v: i64) -> u64 {
    v as u64
}

/// The value a two-operand opcode computes; `a` lay below `b` on the stack.
pub open spec fn binop_val(op: OpCode, a: i64, b: i64) -> i64 {
    match op {
        OpCode::Add => vstd::wrapping::i64_specs::wrapping_add(a, b),
        OpCode::Sub => vstd::wrapping::i64_specs::wrapping_sub(a, b),
        OpCode::Mul => vstd::wrapping::i64_specs::wrapping_mul(a, b),
        OpCode::Div => trunc_div(a, b),
        OpCode::Mod => trunc_rem(a, b),
        OpCode::Eq => if a == b { 1i64 } else { 0i64 },
        OpCode::Lt => if a < b { 1i64 } else { 0i64 },
        OpCode::Gt => if a > b { 1i64 } else { 0i64 },
        _ => 0i64,
    }
}

/// Runs the machine from a state to completion, one instruction per
/// unfolding; the executable loop realizes exactly this function.
///
/// Each step: stop when the program counter passes the end; charge one step
/// against the gas bound; decode; apply the opcode's effect. `Push` reads an
/// eight-byte little-endian immediate; jumps replace the program counter
/// after a bounds check; every other opcode advances it past the
/// instruction.
pub open spec fn vm_run(s: VmState, code: Seq<u8>) -> VmOutcome
    decreases MAX_STEPS - s.steps,
{
    if s.pc >= code.len() {
        VmOutcome::Done(s)
    } else if s.steps >= MAX_STEPS {
        VmOutcome::Fail(VmError::GasLimitExceeded(MAX_STEPS))
    } else {
        let b0 = code[s.pc as int];
        match opcode_of(b0) {
            None => VmOutcome::Fail(VmError::InvalidOpcode(b0)),
            Some(op) => match op {
                OpCode::Push => {
                    if s.pc + 1 + 8 > code.len() {
                        VmOutcome::Fail(
                            VmError::PcOutOfBounds {
                                pc: (s.pc + 1) as usize,
                                len: code.len() as usize,
                            },
                        )
                    } else {
                        let v = i64_from_le(code.subrange(s.pc as int + 1, s.pc as int + 9));
                        match spec_push(s.stack, v) {
                            Err(e) => VmOutcome::Fail(e),
                            Ok(st) => vm_run(
                                VmState { stack: st, pc: s.pc + 9, steps: s.steps + 1, ..s },
                                code,
                            ),
                        }
                    }
                },
                OpCode::Pop => match spec_pop(s.stack) {
                    Err(e) => VmOutcome::Fail(e),
                    Ok((_, st)) => vm_run(
                        VmState { stack: st, pc: s.pc + 1, steps: s.steps + 1, ..s },
                        code,
                    ),
                },
                OpCode::Dup => {
                    if s.stack.len() == 0 {
                        VmOutcome::Fail(VmError::StackUnderflow { needed: 1, got: 0 })
                    } else {
                        match spec_push(s.stack, s.stack.last()) {
                            Err(e) => VmOutcome::Fail(e),
                            Ok(st) => vm_run(
                                VmState { stack: st, pc: s.pc + 1, steps: s.steps + 1, ..s },
                                code,
                            ),
                        }
                    }
                },
                OpCode::Swap => match spec_pop(s.stack) {
                    Err(e) => VmOutcome::Fail(e),
                    Ok((a, st1)) => match spec_pop(st1) {
                        Err(e) => VmOutcome::Fail(e),
                        Ok((b, st2)) => match spec_push(st2, a) {
                            Err(e) => VmOutcome::Fail(e),
                            Ok(st3) => match spec_push(st3, b) {
                                Err(e) => VmOutcome::Fail(e),
                                Ok(st4) => vm_run(
                                    VmState {
                                        stack: st4,
                                        pc: s.pc + 1,
                                        steps: s.steps + 1,
                                        ..s
                                    },
                                    code,
                                ),
                            },
                        },
                    },
                },
                OpCode::Add | OpCode::Sub | OpCode::Mul | OpCode::Eq | OpCode::Lt | OpCode::Gt
                    => match spec_pop(s.stack) {
                    Err(e) => VmOutcome::Fail(e),
                    Ok((b, st1)) => match spec_pop(st1) {
                        Err(e) => VmOutcome::Fail(e),
                        Ok((a, st2)) => match spec_push(st2, binop_val(op, a, b)) {
                            Err(e) => VmOutcome::Fail(e),
                            Ok(st3) => vm_run(
                                VmState { stack: st3, pc: s.pc + 1, steps: s.steps + 1, ..s },
                                code,
                            ),
                        },
                    },
                },
                OpCode::Div | OpCode::Mod => match spec_pop(s.stack) {
                    Err(e) => VmOutcome::Fail(e),
                    Ok((b, st1)) => match spec_pop(st1) {
                        Err(e) => VmOutcome::Fail(e),
                        Ok((a, st2)) => {
                            if b == 0 {
                                VmOutcome::Fail(VmError::DivisionByZero)
                            } else {
                                match spec_push(st2, binop_val(op, a, b)) {
                                    Err(e) => VmOutcome::Fail(e),
                                    Ok(st3) => vm_run(
                                        VmState {
                                            stack: st3,
                                            pc: s.pc + 1,
                                            steps: s.steps + 1,
                                            ..s
                                        },
                                        code,
                                    ),
                                }
                            }
                        },
                    },
                },
                OpCode::Not => match spec_pop(s.stack) {
                    Err(e) => VmOutcome::Fail(e),
                    Ok((a, st1)) => match spec_push(st1, if a == 0 { 1i64 } else { 0i64 }) {
                        Err(e) => VmOutcome::Fail(e),
                        Ok(st2) => vm_run(
                            VmState { stack: st2, pc: s.pc + 1, steps: s.steps + 1, ..s },
                            code,
                        ),
                    },
                },
                OpCode::Jump => match spec_pop(s.stack) {
                    Err(e) => VmOutcome::Fail(e),
                    Ok((t, st1)) => {
                        if target_of(t) >= code.len() {
                            VmOutcome::Fail(VmError::InvalidJump(target_of(t)))
                        } else {
                            vm_run(
                                VmState {
                                    stack: st1,
                                    pc: target_of(t) as nat,
                                    steps: s.steps + 1,
                                    ..s
                                },
                                code,
                            )
                        }
                    },
                },
                OpCode::JumpIf => match spec_pop(s.stack) {
                    Err(e) => VmOutcome::Fail(e),
                    Ok((t, st1)) => match spec_pop(st1) {
                        Err(e) => VmOutcome::Fail(e),
                        Ok((c, st2)) => {
                            if c != 0 {
                                if target_of(t) >= code.len() {
                                    VmOutcome::Fail(VmError::InvalidJump(target_of(t)))
                                } else {
                                    vm_run(
                                        VmState {
                                            stack: st2,
                                            pc: target_of(t) as nat,
                                            steps: s.steps + 1,
                                            ..s
                                        },
                                        code,
                                    )
                                }
                            } else {
                                vm_run(
                                    VmState {
                                        stack: st2,
                                        pc: s.pc + 1,
                                        steps: s.steps + 1,
                                        ..s
                                    },
                                    code,
                                )
                            }
                        },
                    },
                },
                OpCode::Halt => VmOutcome::Done(VmState { steps: s.steps + 1, ..s }),
                OpCode::Store => match spec_pop(s.stack) {
                    Err(e) => VmOutcome::Fail(e),
                    Ok((v, st1)) => match spec_pop(st1) {
                        Err(e) => VmOutcome::Fail(e),
                        Ok((k, st2)) => vm_run(
                            VmState {
                                stack: st2,
                                pc: s.pc + 1,
                                storage: s.storage.insert(key_of(k), v),
                                steps: s.steps + 1,
                                ..s
                            },
                            code,
                        ),
                    },
                },
                OpCode::Load => match spec_pop(s.stack) {
                    Err(e) => VmOutcome::Fail(e),
                    Ok((k, st1)) => {
                        let v = if s.storage.dom().contains(key_of(k)) {
                            s.storage[key_of(k)]
                        } else {
                            0i64
                        };
                        match spec_push(st1, v) {
                            Err(e) => VmOutcome::Fail(e),
                            Ok(st2) => vm_run(
                                VmState { stack: st2, pc: s.pc + 1, steps: s.steps + 1, ..s },
                                code,
                            ),
                        }
                    },
                },
                OpCode::Log => match spec_pop(s.stack) {
                    Err(e) => VmOutcome::Fail(e),
                    Ok((v, st1)) => vm_run(
                        VmState {
                            stack: st1,
                            pc: s.pc + 1,
                            logs: s.logs.push(v),
                            steps: s.steps + 1,
                            ..s
                        },
                        code,
                    ),
                },
            },
        }
    }
}


/// What a completed execution hands back: the final stack, storage, log and
/// step count.
pub struct ExecutionResult {
    pub stack: Vec<i64>,
    pub storage: Storage,
    pub logs: Vec<i64>,
    pub steps_used: u64,
}

/// The machine itself. Stack and logs persist across executions; the
/// program counter and step count reset at each one.
pub struct VM {
    stack: Vec<i64>,
    pc: usize,
    storage: Storage,
    logs: Vec<i64>,
    steps: u64,
}

/// The spec state the machine currently embodies.
spec fn cur_state(vm: VM) -> VmState {
    VmState {
        stack: vm.stack@,
        pc: vm.pc as nat,
        storage: vm.storage@,
        logs: vm.logs@,
        steps: vm.steps as nat,
    }
}

/// Copies a vector of machine words.
fn copy_words(v: &Vec<i64>) -> (r: Vec<i64>)
    ensures
        r@ == v@,
{
    let n = v.len();
    let mut r: Vec<i64> = Vec::new();
    let mut i: usize = 0;
    while i < n
        invariant
            n == v@.len(),
            i <= n,
            r@ =~= v@.take(i as int),
        decreases n - i,
    {
        r.push(v[i]);
        i += 1;
    }
    proof {
        assert(r@ =~= v@);
    }
    r
}

impl VM {
    pub closed spec fn stack_s(&self) -> Seq<i64> {
        self.stack@
    }

    pub closed spec fn storage_m(&self) -> Map<u64, i64> {
        self.storage@
    }

    pub closed spec fn logs_s(&self) -> Seq<i64> {
        self.logs@
    }

    /// The stack never deepens past the cap, and the storage keeps its keys
    /// unique.
    pub closed spec fn wf(&self) -> bool {
        self.storage.wf() && self.stack@.len() <= MAX_STACK_SIZE
    }

    /// The state an execution starts from: the held stack, storage and
    /// logs, with the program counter and step count reset.
    pub open spec fn start_state(&self) -> VmState {
        VmState {
            stack: self.stack_s(),
            pc: 0,
            storage: self.storage_m(),
            logs: self.logs_s(),
            steps: 0,
        }
    }

    pub fn new() -> (vm: VM)
        ensures
            vm.wf(),
            vm.stack_s() == Seq::<i64>::empty(),
            vm.storage_m() == Map::<u64, i64>::empty(),
            vm.logs_s() == Seq::<i64>::empty(),
    {
        let vm = VM {
            stack: Vec::with_capacity(MAX_STACK_SIZE),
            pc: 0,
            storage: Storage::new(),
            logs: Vec::new(),
            steps: 0,
        };
        proof {
            assert(vm.stack@ =~= Seq::<i64>::empty());
            assert(vm.logs@ =~= Seq::<i64>::empty());
        }
        vm
    }

    /// Seeds the machine with existing storage.
    pub fn with_storage(self, storage: Storage) -> (vm: VM)
        requires
            self.wf(),
            storage.wf(),
        ensures
            vm.wf(),
            vm.stack_s() == self.stack_s(),
            vm.storage_m() == storage@,
            vm.logs_s() == self.logs_s(),
    {
        VM { stack: self.stack, pc: self.pc, storage, logs: self.logs, steps: self.steps }
    }

    fn push(&mut self, value: i64) -> (r: VmResult<()>)
        ensures
            final(self).pc == old(self).pc,
            final(self).storage == old(self).storage,
            final(self).logs == old(self).logs,
            final(self).steps == old(self).steps,
            match r {
                Ok(_) => old(self).stack@.len() < MAX_STACK_SIZE && final(self).stack@ == old(self).stack@.push(value),
                Err(e) => old(self).stack@.len() >= MAX_STACK_SIZE && e == VmError::StackOverflow(
                    MAX_STACK_SIZE,
                ) && final(self).stack == old(self).stack,
            },
    {
        if self.stack.len() >= MAX_STACK_SIZE {
            return Err(VmError::StackOverflow(MAX_STACK_SIZE));
        }
        self.stack.push(value);
        Ok(())
    }

    fn pop(&mut self) -> (r: VmResult<i64>)
        ensures
            final(self).pc == old(self).pc,
            final(self).storage == old(self).storage,
            final(self).logs == old(self).logs,
            final(self).steps == old(self).steps,
            match r {
                Ok(v) => old(self).stack@.len() > 0 && v == old(self).stack@.last() && final(self).stack@ == old(self).stack@.drop_last(),
                Err(e) => old(self).stack@.len() == 0 && e == (VmError::StackUnderflow {
                    needed: 1,
                    got: 0,
                }) && final(self).stack@ == old(self).stack@,
            },
    {
        let r = self.stack.pop();
        proof {
            if old(self).stack@.len() > 0 {
                assert(self.stack@ =~= old(self).stack@.drop_last());
            }
        }
        match r {
            Some(v) => Ok(v),
            None => Err(VmError::StackUnderflow { needed: 1, got: 0 }),
        }
    }

    fn peek(&self) -> (r: VmResult<i64>)
        ensures
            match r {
                Ok(v) => self.stack@.len() > 0 && v == self.stack@.last(),
                Err(e) => self.stack@.len() == 0 && e == (VmError::StackUnderflow {
                    needed: 1,
                    got: 0,
                }),
            },
    {
        if self.stack.len() == 0 {
            Err(VmError::StackUnderflow { needed: 1, got: 0 })
        } else {
            Ok(self.stack[self.stack.len() - 1])
        }
    }

    fn read_i64(&mut self, bytecode: &[u8]) -> (r: VmResult<i64>)
        requires
            old(self).pc <= bytecode@.len(),
        ensures
            final(self).stack == old(self).stack,
            final(self).storage == old(self).storage,
            final(self).logs == old(self).logs,
            final(self).steps == old(self).steps,
            match r {
                Ok(v) => old(self).pc + 8 <= bytecode@.len() && v == i64_from_le(
                    bytecode@.subrange(old(self).pc as int, old(self).pc as int + 8),
                ) && final(self).pc == old(self).pc + 7,
                Err(e) => old(self).pc + 8 > bytecode@.len() && e == (VmError::PcOutOfBounds {
                    pc: old(self).pc,
                    len: bytecode@.len() as usize,
                }) && final(self).pc == old(self).pc,
            },
    {
        if bytecode.len() - self.pc < 8 {
            return Err(VmError::PcOutOfBounds { pc: self.pc, len: bytecode.len() });
        }
        let p = self.pc;
        let b0 = bytecode[p];
        let b1 = bytecode[p + 1];
        let b2 = bytecode[p + 2];
        let b3 = bytecode[p + 3];
        let b4 = bytecode[p + 4];
        let b5 = bytecode[p + 5];
        let b6 = bytecode[p + 6];
        let b7 = bytecode[p + 7];
        let v: u64 = (b0 as u64) + (b1 as u64) * 0x100 + (b2 as u64) * 0x1_0000 + (b3 as u64)
            * 0x100_0000 + (b4 as u64) * 0x1_0000_0000 + (b5 as u64) * 0x100_0000_0000 + (b6
            as u64) * 0x1_0000_0000_0000 + (b7 as u64) * 0x100_0000_0000_0000;
        self.pc = p + 7;
        proof {
            let sub = bytecode@.subrange(p as int, p as int + 8);
            assert(sub[0] == b0 && sub[1] == b1 && sub[2] == b2 && sub[3] == b3 && sub[4] == b4
                && sub[5] == b5 && sub[6] == b6 && sub[7] == b7);
            assert(le_u64_of(sub) == v);
        }
        Ok(#[verifier::truncate] (v as i64))
    }

    /// Runs the bytecode from the start until it halts, runs off the end,
    /// or fails; realizes exactly the spec interpreter `vm_run` applied to
    /// the machine's starting state.
    #[verifier::rlimit(100)]
    pub fn execute(&mut self, bytecode: &[u8]) -> (r: VmResult<ExecutionResult>)
        requires
            old(self).wf(),
        ensures
            final(self).wf(),
            match r {
                Ok(res) => res.storage.wf() && (vm_run(old(self).start_state(), bytecode@)
                    matches VmOutcome::Done(f) && f.stack == res.stack@ && f.storage
                    == res.storage@ && f.logs == res.logs@ && f.steps == res.steps_used),
                Err(e) => vm_run(old(self).start_state(), bytecode@) == VmOutcome::Fail(e),
            },
    {
        self.pc = 0;
        self.steps = 0;
        let ghost init = old(self).start_state();
        let ghost code = bytecode@;
        proof {
            assert(cur_state(*self) == init);
        }
        while self.pc < bytecode.len()
            invariant
                self.wf(),
                self.steps <= MAX_STEPS,
                bytecode@ == code,
                init == old(self).start_state(),
                vm_run(cur_state(*self), code) == vm_run(init, code),
            decreases MAX_STEPS - self.steps,
        {
            let ghost pre = cur_state(*self);
            if self.steps >= MAX_STEPS {
                proof {
                    assert(vm_run(pre, code) == VmOutcome::Fail(
                        VmError::GasLimitExceeded(MAX_STEPS),
                    ));
                }
                return Err(VmError::GasLimitExceeded(MAX_STEPS));
            }
            self.steps = self.steps + 1;
            let opcode_byte = bytecode[self.pc];
            let opcode = match OpCode::from_byte(opcode_byte) {
                Some(op) => op,
                None => {
                    proof {
                        assert(vm_run(pre, code) == VmOutcome::Fail(
                            VmError::InvalidOpcode(opcode_byte),
                        ));
                    }
                    return Err(VmError::InvalidOpcode(opcode_byte));
                },
            };
            match opcode {
                OpCode::Push => {
                    self.pc = self.pc + 1;
                    let value = match self.read_i64(bytecode) {
                        Ok(v) => v,
                        Err(e) => {
                            proof {
                                assert(vm_run(pre, code) == VmOutcome::Fail(e));
                            }
                            return Err(e);
                        },
                    };
                    match self.push(value) {
                        Ok(_) => {},
                        Err(e) => {
                            proof {
                                assert(vm_run(pre, code) == VmOutcome::Fail(e));
                            }
                            return Err(e);
                        },
                    }
                    self.pc = self.pc + 1;
                    proof {
                        assert(cur_state(*self) == (VmState {
                            stack: pre.stack.push(value),
                            pc: pre.pc + 9,
                            steps: pre.steps + 1,
                            ..pre
                        }));
                        assert(vm_run(pre, code) == vm_run(cur_state(*self), code));
                    }
                },
                OpCode::Pop => {
                    match self.pop() {
                        Ok(_) => {},
                        Err(e) => {
                            proof {
                                assert(vm_run(pre, code) == VmOutcome::Fail(e));
                            }
                            return Err(e);
                        },
                    }
                    self.pc = self.pc + 1;
                    proof {
                        assert(vm_run(pre, code) == vm_run(cur_state(*self), code));
                    }
                },
                OpCode::Dup => {
                    let val = match self.peek() {
                        Ok(v) => v,
                        Err(e) => {
                            proof {
                                assert(vm_run(pre, code) == VmOutcome::Fail(e));
                            }
                            return Err(e);
                        },
                    };
                    match self.push(val) {
                        Ok(_) => {},
                        Err(e) => {
                            proof {
                                assert(vm_run(pre, code) == VmOutcome::Fail(e));
                            }
                            return Err(e);
                        },
                    }
                    self.pc = self.pc + 1;
                    proof {
                        assert(vm_run(pre, code) == vm_run(cur_state(*self), code));
                    }
                },
                OpCode::Swap => {
                    let a = match self.pop() {
                        Ok(v) => v,
                        Err(e) => {
                            proof {
                                assert(vm_run(pre, code) == VmOutcome::Fail(e));
                            }
                            return Err(e);
                        },
                    };
                    let b = match self.pop() {
                        Ok(v) => v,
                        Err(e) => {
                            proof {
                                assert(vm_run(pre, code) == VmOutcome::Fail(e));
                            }
                            return Err(e);
                        },
                    };
                    match self.push(a) {
                        Ok(_) => {},
                        Err(e) => {
                            proof {
                                assert(false);
                            }
                            return Err(e);
                        },
                    }
                    match self.push(b) {
                        Ok(_) => {},
                        Err(e) => {
                            proof {
                                assert(false);
                            }
                            return Err(e);
                        },
                    }
                    self.pc = self.pc + 1;
                    proof {
                        assert(vm_run(pre, code) == vm_run(cur_state(*self), code));
                    }
                },
                OpCode::Add | OpCode::Sub | OpCode::Mul | OpCode::Eq | OpCode::Lt | OpCode::Gt
                    => {
                    let b = match self.pop() {
                        Ok(v) => v,
                        Err(e) => {
                            proof {
                                assert(vm_run(pre, code) == VmOutcome::Fail(e));
                            }
                            return Err(e);
                        },
                    };
                    let a = match self.pop() {
                        Ok(v) => v,
                        Err(e) => {
                            proof {
                                assert(vm_run(pre, code) == VmOutcome::Fail(e));
                            }
                            return Err(e);
                        },
                    };
                    let val = match opcode {
                        OpCode::Add => a.wrapping_add(b),
                        OpCode::Sub => a.wrapping_sub(b),
                        OpCode::Mul => a.wrapping_mul(b),
                        OpCode::Eq => if a == b {
                            1
                        } else {
                            0
                        },
                        OpCode::Lt => if a < b {
                            1
                        } else {
                            0
                        },
                        _ => if a > b {
                            1
                        } else {
                            0
                        },
                    };
                    proof {
                        assert(val == binop_val(opcode, a, b));
                    }
                    match self.push(val) {
                        Ok(_) => {},
                        Err(e) => {
                            proof {
                                assert(false);
                            }
                            return Err(e);
                        },
                    }
                    self.pc = self.pc + 1;
                    proof {
                        assert(vm_run(pre, code) == vm_run(cur_state(*self), code));
                    }
                },
                OpCode::Div | OpCode::Mod => {
                    let b = match self.pop() {
                        Ok(v) => v,
                        Err(e) => {
                            proof {
                                assert(vm_run(pre, code) == VmOutcome::Fail(e));
                            }
                            return Err(e);
                        },
                    };
                    let a = match self.pop() {
                        Ok(v) => v,
                        Err(e) => {
                            proof {
                                assert(vm_run(pre, code) == VmOutcome::Fail(e));
                            }
                            return Err(e);
                        },
                    };
                    if b == 0 {
                        proof {
                            assert(vm_run(pre, code) == VmOutcome::Fail(VmError::DivisionByZero));
                        }
                        return Err(VmError::DivisionByZero);
                    }
                    let val = if matches!(opcode, OpCode::Div) {
                        div_trunc(a, b)
                    } else {
                        rem_trunc(a, b)
                    };
                    match self.push(val) {
                        Ok(_) => {},
                        Err(e) => {
                            proof {
                                assert(false);
                            }
                            return Err(e);
                        },
                    }
                    self.pc = self.pc + 1;
                    proof {
                        assert(vm_run(pre, code) == vm_run(cur_state(*self), code));
                    }
                },
                OpCode::Not => {
                    let a = match self.pop() {
                        Ok(v) => v,
                        Err(e) => {
                            proof {
                                assert(vm_run(pre, code) == VmOutcome::Fail(e));
                            }
                            return Err(e);
                        },
                    };
                    match self.push(if a == 0 {
                        1
                    } else {
                        0
                    }) {
                        Ok(_) => {},
                        Err(e) => {
                            proof {
                                assert(false);
                            }
                            return Err(e);
                        },
                    }
                    self.pc = self.pc + 1;
                    proof {
                        assert(vm_run(pre, code) == vm_run(cur_state(*self), code));
                    }
                },
                OpCode::Jump => {
                    let t = match self.pop() {
                        Ok(v) => v,
                        Err(e) => {
                            proof {
                                assert(vm_run(pre, code) == VmOutcome::Fail(e));
                            }
                            return Err(e);
                        },
                    };
                    let target = #[verifier::truncate] (t as usize);
                    if target >= bytecode.len() {
                        proof {
                            assert(vm_run(pre, code) == VmOutcome::Fail(
                                VmError::InvalidJump(target),
                            ));
                        }
                        return Err(VmError::InvalidJump(target));
                    }
                    self.pc = target;
                    proof {
                        assert(vm_run(pre, code) == vm_run(cur_state(*self), code));
                    }
                },
                OpCode::JumpIf => {
                    let t = match self.pop() {
                        Ok(v) => v,
                        Err(e) => {
                            proof {
                                assert(vm_run(pre, code) == VmOutcome::Fail(e));
                            }
                            return Err(e);
                        },
                    };
                    let condition = match self.pop() {
                        Ok(v) => v,
                        Err(e) => {
                            proof {
                                assert(vm_run(pre, code) == VmOutcome::Fail(e));
                            }
                            return Err(e);
                        },
                    };
                    if condition != 0 {
                        let target = #[verifier::truncate] (t as usize);
                        if target >= bytecode.len() {
                            proof {
                                assert(vm_run(pre, code) == VmOutcome::Fail(
                                    VmError::InvalidJump(target),
                                ));
                            }
                            return Err(VmError::InvalidJump(target));
                        }
                        self.pc = target;
                    } else {
                        self.pc = self.pc + 1;
                    }
                    proof {
                        assert(vm_run(pre, code) == vm_run(cur_state(*self), code));
                    }
                },
                OpCode::Halt => {
                    proof {
                        assert(vm_run(pre, code) == VmOutcome::Done(VmState {
                            steps: pre.steps + 1,
                            ..pre
                        }));
                        assert(cur_state(*self) == (VmState { steps: pre.steps + 1, ..pre }));
                    }
                    let res = self.finish();
                    return Ok(res);
                },
                OpCode::Store => {
                    let value = match self.pop() {
                        Ok(v) => v,
                        Err(e) => {
                            proof {
                                assert(vm_run(pre, code) == VmOutcome::Fail(e));
                            }
                            return Err(e);
                        },
                    };
                    let key_word = match self.pop() {
                        Ok(v) => v,
                        Err(e) => {
                            proof {
                                assert(vm_run(pre, code) == VmOutcome::Fail(e));
                            }
                            return Err(e);
                        },
                    };
                    let key = #[verifier::truncate] (key_word as u64);
                    self.storage.insert(key, value);
                    self.pc = self.pc + 1;
                    proof {
                        assert(vm_run(pre, code) == vm_run(cur_state(*self), code));
                    }
                },
                OpCode::Load => {
                    let key_word = match self.pop() {
                        Ok(v) => v,
                        Err(e) => {
                            proof {
                                assert(vm_run(pre, code) == VmOutcome::Fail(e));
                            }
                            return Err(e);
                        },
                    };
                    let key = #[verifier::truncate] (key_word as u64);
                    let value = match self.storage.get(key) {
                        Some(v) => v,
                        None => 0,
                    };
                    match self.push(value) {
                        Ok(_) => {},
                        Err(e) => {
                            proof {
                                assert(false);
                            }
                            return Err(e);
                        },
                    }
                    self.pc = self.pc + 1;
                    proof {
                        assert(vm_run(pre, code) == vm_run(cur_state(*self), code));
                    }
                },
                OpCode::Log => {
                    let value = match self.pop() {
                        Ok(v) => v,
                        Err(e) => {
                            proof {
                                assert(vm_run(pre, code) == VmOutcome::Fail(e));
                            }
                            return Err(e);
                        },
                    };
                    self.logs.push(value);
                    self.pc = self.pc + 1;
                    proof {
                        assert(vm_run(pre, code) == vm_run(cur_state(*self), code));
                    }
                },
            }
        }
        proof {
            assert(vm_run(cur_state(*self), code) == VmOutcome::Done(cur_state(*self)));
        }
        let res = self.finish();
        Ok(res)
    }

    /// Snapshots the machine's stack, storage, log and step count.
    fn finish(&self) -> (res: ExecutionResult)
        requires
            self.wf(),
        ensures
            res.storage.wf(),
            res.stack@ == self.stack@,
            res.storage@ == self.storage@,
            res.logs@ == self.logs@,
            res.steps_used == self.steps,
    {
        ExecutionResult {
            stack: copy_words(&self.stack),
            storage: self.storage.duplicate(),
            logs: copy_words(&self.logs),
            steps_used: self.steps,
        }
    }
}

impl Default for VM {
    fn default() -> (vm: VM)
        ensures
            vm.wf(),
            vm.stack_s() == Seq::<i64>::empty(),
            vm.storage_m() == Map::<u64, i64>::empty(),
            vm.logs_s() == Seq::<i64>::empty(),
    {
        VM::new()
    }
}


/// A fresh machine's starting state over a given storage.
pub open spec fn fresh_state(storage: Map<u64, i64>) -> VmState {
    VmState { stack: Seq::empty(), pc: 0, storage, logs: Seq::empty(), steps: 0 }
}

/// A run that completes never spends more than the step cap, and a state
/// at the cap with code left to run fails with the gas error.
#[verifier::rlimit(100)]
pub proof fn lemma_gas_limit(s: VmState, code: Seq<u8>)
    requires
        s.steps <= MAX_STEPS,
    ensures
        vm_run(s, code) matches VmOutcome::Done(f) ==> f.steps <= MAX_STEPS,
        s.steps >= MAX_STEPS && s.pc < code.len() ==> vm_run(s, code) == VmOutcome::Fail(
            VmError::GasLimitExceeded(MAX_STEPS),
        ),
    decreases MAX_STEPS - s.steps,
{
    if s.pc < code.len() && s.steps < MAX_STEPS {
        let b0 = code[s.pc as int];
        match opcode_of(b0) {
            None => {},
            Some(op) => match op {
                OpCode::Push => {
                    if s.pc + 1 + 8 <= code.len() {
                        let v = i64_from_le(code.subrange(s.pc as int + 1, s.pc as int + 9));
                        match spec_push(s.stack, v) {
                            Err(_) => {},
                            Ok(st) => {
                                lemma_gas_limit(
                                    VmState { stack: st, pc: s.pc + 9, steps: s.steps + 1, ..s },
                                    code,
                                );
                            },
                        }
                    }
                },
                OpCode::Pop => {
                    match spec_pop(s.stack) {
                        Err(_) => {},
                        Ok((_, st)) => {
                            lemma_gas_limit(
                                VmState { stack: st, pc: s.pc + 1, steps: s.steps + 1, ..s },
                                code,
                            );
                        },
                    }
                },
                OpCode::Dup => {
                    if s.stack.len() > 0 {
                        match spec_push(s.stack, s.stack.last()) {
                            Err(_) => {},
                            Ok(st) => {
                                lemma_gas_limit(
                                    VmState { stack: st, pc: s.pc + 1, steps: s.steps + 1, ..s },
                                    code,
                                );
                            },
                        }
                    }
                },
                OpCode::Swap => {
                    match spec_pop(s.stack) {
                        Err(_) => {},
                        Ok((a, st1)) => match spec_pop(st1) {
                            Err(_) => {},
                            Ok((b, st2)) => match spec_push(st2, a) {
                                Err(_) => {},
                                Ok(st3) => match spec_push(st3, b) {
                                    Err(_) => {},
                                    Ok(st4) => {
                                        lemma_gas_limit(
                                            VmState {
                                                stack: st4,
                                                pc: s.pc + 1,
                                                steps: s.steps + 1,
                                                ..s
                                            },
                                            code,
                                        );
                                    },
                                },
                            },
                        },
                    }
                },
                OpCode::Add | OpCode::Sub | OpCode::Mul | OpCode::Eq | OpCode::Lt | OpCode::Gt
                    => {
                    match spec_pop(s.stack) {
                        Err(_) => {},
                        Ok((b, st1)) => match spec_pop(st1) {
                            Err(_) => {},
                            Ok((a, st2)) => match spec_push(st2, binop_val(op, a, b)) {
                                Err(_) => {},
                                Ok(st3) => {
                                    lemma_gas_limit(
                                        VmState {
                                            stack: st3,
                                            pc: s.pc + 1,
                                            steps: s.steps + 1,
                                            ..s
                                        },
                                        code,
                                    );
                                },
                            },
                        },
                    }
                },
                OpCode::Div | OpCode::Mod => {
                    match spec_pop(s.stack) {
                        Err(_) => {},
                        Ok((b, st1)) => match spec_pop(st1) {
                            Err(_) => {},
                            Ok((a, st2)) => {
                                if b != 0 {
                                    match spec_push(st2, binop_val(op, a, b)) {
                                        Err(_) => {},
                                        Ok(st3) => {
                                            lemma_gas_limit(
                                                VmState {
                                                    stack: st3,
                                                    pc: s.pc + 1,
                                                    steps: s.steps + 1,
                                                    ..s
                                                },
                                                code,
                                            );
                                        },
                                    }
                                }
                            },
                        },
                    }
                },
                OpCode::Not => {
                    match spec_pop(s.stack) {
                        Err(_) => {},
                        Ok((a, st1)) => {
                            let v: i64 = if a == 0 {
                                1
                            } else {
                                0
                            };
                            match spec_push(st1, v) {
                                Err(_) => {},
                                Ok(st2) => {
                                    lemma_gas_limit(
                                        VmState {
                                            stack: st2,
                                            pc: s.pc + 1,
                                            steps: s.steps + 1,
                                            ..s
                                        },
                                        code,
                                    );
                                },
                            }
                        },
                    }
                },
                OpCode::Jump => {
                    match spec_pop(s.stack) {
                        Err(_) => {},
                        Ok((t, st1)) => {
                            if target_of(t) < code.len() {
                                lemma_gas_limit(
                                    VmState {
                                        stack: st1,
                                        pc: target_of(t) as nat,
                                        steps: s.steps + 1,
                                        ..s
                                    },
                                    code,
                                );
                            }
                        },
                    }
                },
                OpCode::JumpIf => {
                    match spec_pop(s.stack) {
                        Err(_) => {},
                        Ok((t, st1)) => match spec_pop(st1) {
                            Err(_) => {},
                            Ok((c, st2)) => {
                                if c != 0 {
                                    if target_of(t) < code.len() {
                                        lemma_gas_limit(
                                            VmState {
                                                stack: st2,
                                                pc: target_of(t) as nat,
                                                steps: s.steps + 1,
                                                ..s
                                            },
                                            code,
                                        );
                                    }
                                } else {
                                    lemma_gas_limit(
                                        VmState {
                                            stack: st2,
                                            pc: s.pc + 1,
                                            steps: s.steps + 1,
                                            ..s
                                        },
                                        code,
                                    );
                                }
                            },
                        },
                    }
                },
                OpCode::Halt => {},
                OpCode::Store => {
                    match spec_pop(s.stack) {
                        Err(_) => {},
                        Ok((v, st1)) => match spec_pop(st1) {
                            Err(_) => {},
                            Ok((k, st2)) => {
                                lemma_gas_limit(
                                    VmState {
                                        stack: st2,
                                        pc: s.pc + 1,
                                        storage: s.storage.insert(key_of(k), v),
                                        steps: s.steps + 1,
                                        ..s
                                    },
                                    code,
                                );
                            },
                        },
                    }
                },
                OpCode::Load => {
                    match spec_pop(s.stack) {
                        Err(_) => {},
                        Ok((k, st1)) => {
                            let v: i64 = if s.storage.dom().contains(key_of(k)) {
                                s.storage[key_of(k)]
                            } else {
                                0
                            };
                            match spec_push(st1, v) {
                                Err(_) => {},
                                Ok(st2) => {
                                    lemma_gas_limit(
                                        VmState {
                                            stack: st2,
                                            pc: s.pc + 1,
                                            steps: s.steps + 1,
                                            ..s
                                        },
                                        code,
                                    );
                                },
                            }
                        },
                    }
                },
                OpCode::Log => {
                    match spec_pop(s.stack) {
                        Err(_) => {},
                        Ok((v, st1)) => {
                            lemma_gas_limit(
                                VmState {
                                    stack: st1,
                                    pc: s.pc + 1,
                                    logs: s.logs.push(v),
                                    steps: s.steps + 1,
                                    ..s
                                },
                                code,
                            );
                        },
                    }
                },
            },
        }
    }
}

/// Pushing a value and halting leaves exactly that value on the stack.
pub proof fn lemma_push_halt(v: i64, storage: Map<u64, i64>)
    ensures
        ({
            let code = seq![0x01u8] + i64_le_of(v) + seq![0x3Fu8];
            vm_run(fresh_state(storage), code) matches VmOutcome::Done(f) && f.stack =~= seq![v]
        }),
{
    let code = seq![0x01u8] + i64_le_of(v) + seq![0x3Fu8];
    let s0 = fresh_state(storage);
    lemma_i64_le_roundtrip(v);
    assert(code.len() == 10);
    assert(code[0] == 0x01u8);
    assert(code.subrange(1, 9) =~= i64_le_of(v));
    let s1 = VmState { stack: seq![v], pc: 9, steps: 1, ..s0 };
    assert(vm_run(s0, code) == vm_run(s1, code));
    assert(code[9] == 0x3Fu8);
    assert(vm_run(s1, code) == VmOutcome::Done(VmState { steps: 2, ..s1 }));
}

/// Pushing two values and adding leaves their wrapping sum alone on the
/// stack.
pub proof fn lemma_push_add_halt(a: i64, b: i64, storage: Map<u64, i64>)
    ensures
        ({
            let code = seq![0x01u8] + i64_le_of(a) + seq![0x01u8] + i64_le_of(b) + seq![
                0x10u8,
                0x3Fu8,
            ];
            vm_run(fresh_state(storage), code) matches VmOutcome::Done(f) && f.stack =~= seq![
                vstd::wrapping::i64_specs::wrapping_add(a, b),
            ]
        }),
{
    let code = seq![0x01u8] + i64_le_of(a) + seq![0x01u8] + i64_le_of(b) + seq![0x10u8, 0x3Fu8];
    let s0 = fresh_state(storage);
    lemma_i64_le_roundtrip(a);
    lemma_i64_le_roundtrip(b);
    assert(code.len() == 20);
    assert(code[0] == 0x01u8);
    assert(code.subrange(1, 9) =~= i64_le_of(a));
    let s1 = VmState { stack: seq![a], pc: 9, steps: 1, ..s0 };
    assert(vm_run(s0, code) == vm_run(s1, code));
    assert(code[9] == 0x01u8);
    assert(code.subrange(10, 18) =~= i64_le_of(b));
    let s2 = VmState { stack: seq![a, b], pc: 18, steps: 2, ..s0 };
    assert(seq![a].push(b) =~= seq![a, b]);
    assert(vm_run(s1, code) == vm_run(s2, code));
    assert(code[18] == 0x10u8);
    let sum = vstd::wrapping::i64_specs::wrapping_add(a, b);
    let s3 = VmState { stack: seq![sum], pc: 19, steps: 3, ..s0 };
    assert(seq![a, b].last() == b);
    assert(seq![a, b].drop_last() =~= seq![a]);
    assert(seq![a].drop_last() =~= Seq::<i64>::empty());
    assert(Seq::<i64>::empty().push(sum) =~= seq![sum]);
    assert(vm_run(s2, code) == vm_run(s3, code));
    assert(code[19] == 0x3Fu8);
    assert(vm_run(s3, code) == VmOutcome::Done(VmState { steps: 4, ..s3 }));
}

/// Storing a value under a key and loading that key back leaves the
/// value alone on the stack.
pub proof fn lemma_store_load_halt(v: i64, storage: Map<u64, i64>)
    ensures
        ({
            let code = seq![0x01u8] + i64_le_of(0) + seq![0x01u8] + i64_le_of(v) + seq![0x40u8]
                + seq![0x01u8] + i64_le_of(0) + seq![0x41u8, 0x3Fu8];
            vm_run(fresh_state(storage), code) matches VmOutcome::Done(f) && f.stack =~= seq![v]
                && f.storage == storage.insert(0, v)
        }),
{
    let code = seq![0x01u8] + i64_le_of(0) + seq![0x01u8] + i64_le_of(v) + seq![0x40u8] + seq![
        0x01u8,
    ] + i64_le_of(0) + seq![0x41u8, 0x3Fu8];
    let s0 = fresh_state(storage);
    lemma_i64_le_roundtrip(v);
    lemma_i64_le_roundtrip(0);
    assert(code.len() == 30);
    assert(code[0] == 0x01u8);
    assert(code.subrange(1, 9) =~= i64_le_of(0));
    let s1 = VmState { stack: seq![0i64], pc: 9, steps: 1, ..s0 };
    assert(vm_run(s0, code) == vm_run(s1, code));
    assert(code[9] == 0x01u8);
    assert(code.subrange(10, 18) =~= i64_le_of(v));
    let s2 = VmState { stack: seq![0i64, v], pc: 18, steps: 2, ..s0 };
    assert(seq![0i64].push(v) =~= seq![0i64, v]);
    assert(vm_run(s1, code) == vm_run(s2, code));
    assert(code[18] == 0x40u8);
    assert(seq![0i64, v].last() == v);
    assert(seq![0i64, v].drop_last() =~= seq![0i64]);
    assert(seq![0i64].last() == 0i64);
    assert(seq![0i64].drop_last() =~= Seq::<i64>::empty());
    assert(key_of(0i64) == 0u64) by (bit_vector);
    let s3 = VmState {
        stack: Seq::empty(),
        pc: 19,
        storage: storage.insert(0, v),
        steps: 3,
        ..s0
    };
    assert(vm_run(s2, code) == vm_run(s3, code));
    assert(code[19] == 0x01u8);
    assert(code.subrange(20, 28) =~= i64_le_of(0));
    let s4 = VmState { stack: seq![0i64], pc: 28, steps: 4, ..s3 };
    assert(Seq::<i64>::empty().push(0i64) =~= seq![0i64]);
    assert(vm_run(s3, code) == vm_run(s4, code));
    assert(code[28] == 0x41u8);
    assert(s4.storage.dom().contains(0u64) && s4.storage[0u64] == v);
    let s5 = VmState { stack: seq![v], pc: 29, steps: 5, ..s4 };
    assert(Seq::<i64>::empty().push(v) =~= seq![v]);
    assert(vm_run(s4, code) == vm_run(s5, code));
    assert(code[29] == 0x3Fu8);
    assert(vm_run(s5, code) == VmOutcome::Done(VmState { steps: 6, ..s5 }));
}

/// Dividing by a pushed zero fails with the division error.
pub proof fn lemma_div_by_zero(a: i64, storage: Map<u64, i64>)
    ensures
        ({
            let code = seq![0x01u8] + i64_le_of(a) + seq![0x01u8] + i64_le_of(0) + seq![0x13u8];
            vm_run(fresh_state(storage), code) == VmOutcome::Fail(VmError::DivisionByZero)
        }),
{
    let code = seq![0x01u8] + i64_le_of(a) + seq![0x01u8] + i64_le_of(0) + seq![0x13u8];
    let s0 = fresh_state(storage);
    lemma_i64_le_roundtrip(a);
    lemma_i64_le_roundtrip(0);
    assert(code.len() == 19);
    assert(code[0] == 0x01u8);
    assert(code.subrange(1, 9) =~= i64_le_of(a));
    let s1 = VmState { stack: seq![a], pc: 9, steps: 1, ..s0 };
    assert(vm_run(s0, code) == vm_run(s1, code));
    assert(code[9] == 0x01u8);
    assert(code.subrange(10, 18) =~= i64_le_of(0));
    let s2 = VmState { stack: seq![a, 0i64], pc: 18, steps: 2, ..s0 };
    assert(seq![a].push(0i64) =~= seq![a, 0i64]);
    assert(vm_run(s1, code) == vm_run(s2, code));
    assert(code[18] == 0x13u8);
    assert(seq![a, 0i64].last() == 0i64);
    assert(seq![a, 0i64].drop_last() =~= seq![a]);
    assert(vm_run(s2, code) == VmOutcome::Fail(VmError::DivisionByZero));
}

} // verus!
