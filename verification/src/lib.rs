//! Core of a single-node proof-of-work blockchain: a linear chain of mined
//! blocks, an account world state replayed from the chain, a mempool of
//! signed transactions, a stack virtual machine with an assembler, and the
//! command/event surface through which a gossip layer drives convergence.

pub mod ambient;
pub mod block;
pub mod chain;
pub mod compiler;
pub mod contract;
pub mod crypto;
pub mod errors;
pub mod merkle;
pub mod network;
pub mod state;
pub mod storage;
pub mod text;
pub mod transaction;
pub mod vm;
pub mod wallet;
