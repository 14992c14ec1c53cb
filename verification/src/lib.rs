//! Witness generation for an EVM execution proof: the ordered log of
//! state-access operations of a block, and helpers shared with the circuits
//! that consume it.
pub mod circuit_input_builder;
pub mod field;
pub mod laws;
pub mod mul_add;
pub mod opcode;
pub mod opcodes;
pub mod operation;
pub mod state;
pub mod trace;
pub mod util;
pub mod word;
