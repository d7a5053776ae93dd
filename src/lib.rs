//! A gas-metered virtual machine core for Ethereum bytecode: fixed-width
//! words, the operand stack and memory, opcode pre-checks, gas schedules,
//! the journaled substate and the call/create lifecycle.
pub mod u256;
pub mod errors;
pub mod stack;
pub mod memory;
pub mod patch;
pub mod gas;
pub mod opcode;
pub mod check;
pub mod substate;
pub mod backend;
pub mod blockhash;
pub mod hashing;
pub mod precompiled;
pub mod machine;
pub mod lifecycle;
pub mod transaction;
pub mod vectors;
