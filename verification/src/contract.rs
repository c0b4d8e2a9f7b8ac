//! The contract executor: deploys bytecode under a fresh address and runs
//! a contract's bytecode in a fresh machine seeded with its storage,
//! committing the storage back only on success.

use vstd::prelude::*;
use vstd::string::StrSliceExecFns;
use vstd::string::StringExecFns;
use vstd::utf8::encode_utf8;

use crate::ambient::now_nanos;
use crate::crypto::{sha256, sha256_of};
use crate::errors::{VmError, VmResult};
use crate::state::WorldState;
use crate::text::{hex_encode, hex_of, lemma_hex_of_ascii, lemma_hex_of_len};
use crate::transaction::copy_bytes;
use crate::vm::{i64_to_le_bytes, vm_run, ExecutionResult, VmOutcome, VmState, VM};

verus! {

/// What a contract call hands back: the log, the top of the final stack,
/// and the steps spent.
#[derive(Debug)]
pub struct ContractResult {
    pub logs: Vec<i64>,
    pub stack_top: Option<i64>,
    pub steps_used: u64,
}

/// The state a contract call starts its machine in: empty stack and log,
/// the contract's storage.
pub open spec fn contract_start(storage: Map<u64, i64>) -> VmState {
    VmState { stack: Seq::empty(), pc: 0, storage, logs: Seq::empty(), steps: 0 }
}

/// The address a deployment derives when the clock reads `t`: the `0xc`
/// prefix and the first 39 hex characters of the SHA-256 over the sender,
/// the bytecode and the instant's little-endian nanoseconds.
pub open spec fn deploy_address_at(sender: Seq<char>, bytecode: Seq<u8>, t: i64) -> Seq<char> {
    "0xc"@ + hex_of(sha256_of(encode_utf8(sender) + bytecode + crate::vm::i64_le_of(t))).take(39)
}

/// Deploys and calls contracts against a world state.
pub struct ContractExecutor;

impl ContractExecutor {
    /// Derives a fresh contract address from the sender, the bytecode and
    /// the clock, and records the contract with empty storage.
    pub fn deploy(state: &mut WorldState, sender: &str, bytecode: Vec<u8>) -> (r: VmResult<String>)
        requires
            old(state).wf(),
        ensures
            final(state).wf(),
            final(state).accounts_seq() == old(state).accounts_seq(),
            r matches Ok(addr) && addr@.len() == 42 && addr@.subrange(0, 3) == "0xc"@ && (exists|t: i64| addr@ == #[trigger] deploy_address_at(sender@, bytecode@, t)) && final(state).contracts_m().dom() == old(state).contracts_m().dom().insert(addr@) && final(state).contracts_m()[addr@].bytecode@ == bytecode@ && final(state).contracts_m()[
                addr@
            ].storage@ == Map::<u64, i64>::empty() && final(state).contracts_m()[addr@].owner@
                == sender@ && (forall|k: Seq<char>|
                k != addr@ && old(state).contracts_m().dom().contains(k) ==> final(state).contracts_m()[k] == old(state).contracts_m()[k]),
    {
        let mut preimage: Vec<u8> = Vec::new();
        preimage.extend_from_slice(sender.as_bytes());
        preimage.extend_from_slice(bytecode.as_slice());
        let nanos = now_nanos();
        let nano_bytes = i64_to_le_bytes(nanos);
        preimage.extend_from_slice(nano_bytes.as_slice());
        proof {
            assert(preimage@ =~= encode_utf8(sender@) + bytecode@ + crate::vm::i64_le_of(nanos));
        }
        let digest = sha256(preimage.as_slice());
        let hex = hex_encode(digest.as_slice());
        proof {
            lemma_hex_of_len(digest@);
            lemma_hex_of_ascii(digest@);
        }
        let head = hex.as_str().substring_ascii(0, 39);
        let mut address = String::from_str("0xc");
        address.append(head);
        proof {
            reveal_strlit("0xc");
            assert(address@.subrange(0, 3) =~= "0xc"@);
            assert(hex@.subrange(0, 39) =~= hex@.take(39));
            assert(address@ == deploy_address_at(sender@, bytecode@, nanos));
        }
        let addr_copy = address.clone();
        state.deploy_contract(addr_copy, bytecode, sender.to_owned());
        Ok(address)
    }

    /// Runs a contract's bytecode in a fresh machine seeded with its
    /// storage. On success the contract's storage becomes the machine's
    /// final storage; on failure the state is untouched.
    pub fn call(state: &mut WorldState, contract_address: &str, _call_data: &[u8]) -> (r: VmResult<
        ContractResult,
    >)
        requires
            old(state).wf(),
        ensures
            final(state).wf(),
            final(state).accounts_seq() == old(state).accounts_seq(),
            match r {
                Ok(res) => {
                    &&& old(state).contracts_m().dom().contains(contract_address@)
                    &&& (vm_run(
                        contract_start(
                            old(state).contracts_m()[contract_address@].storage@,
                        ),
                        old(state).contracts_m()[contract_address@].bytecode@,
                    ) matches VmOutcome::Done(f) && res.logs@ == f.logs && res.steps_used
                        == f.steps && res.stack_top == (if f.stack.len() > 0 {
                        Some(f.stack.last())
                    } else {
                        None::<i64>
                    }) && final(state).contracts_m()[contract_address@].storage@ == f.storage)
                    &&& final(state).contracts_m().dom() == old(state).contracts_m().dom()
                    &&& final(state).contracts_m()[contract_address@].bytecode@ == old(state).contracts_m()[contract_address@].bytecode@
                    &&& final(state).contracts_m()[contract_address@].owner@ == old(state).contracts_m()[contract_address@].owner@
                    &&& forall|k: Seq<char>|
                        k != contract_address@ && old(state).contracts_m().dom().contains(k)
                            ==> final(state).contracts_m()[k] == old(state).contracts_m()[k]
                },
                Err(e) => {
                    &&& final(state).contracts_seq() == old(state).contracts_seq()
                    &&& if old(state).contracts_m().dom().contains(contract_address@) {
                        vm_run(
                            contract_start(
                                old(state).contracts_m()[contract_address@].storage@,
                            ),
                            old(state).contracts_m()[contract_address@].bytecode@,
                        ) == VmOutcome::Fail(e)
                    } else {
                        e matches VmError::ContractError(_)
                    }
                },
            },
    {
        let (bytecode, storage) = match state.get_contract(contract_address) {
            Some(c) => (copy_bytes(&c.bytecode), c.storage.duplicate()),
            None => {
                let mut msg = String::from_str("contract not found: ");
                msg.append(contract_address);
                return Err(VmError::ContractError(msg));
            },
        };
        let mut vm = VM::new().with_storage(storage);
        proof {
            assert(vm.start_state() =~= contract_start(
                old(state).contracts_m()[contract_address@].storage@,
            ));
        }
        let result = match vm.execute(bytecode.as_slice()) {
            Ok(r) => r,
            Err(e) => {
                return Err(e);
            },
        };
        let ExecutionResult { stack, storage: final_storage, logs, steps_used } = result;
        let stack_top: Option<i64> = if stack.len() > 0 {
            Some(stack[stack.len() - 1])
        } else {
            None
        };
        let committed = state.set_contract_storage(contract_address, final_storage);
        proof {
            assert(committed);
        }
        Ok(ContractResult { logs, stack_top, steps_used })
    }
}

} // verus!
