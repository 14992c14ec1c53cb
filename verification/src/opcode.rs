//! The instruction set: which handler records the accesses of each
//! instruction.
use vstd::prelude::*;
use crate::operation::{AccountField, CallContextField};

verus! {

pub const STOP: u8 = 0x00;
pub const ADD: u8 = 0x01;
pub const ADDMOD: u8 = 0x08;
pub const MULMOD: u8 = 0x09;
pub const ISZERO: u8 = 0x15;
pub const NOT: u8 = 0x19;
pub const KECCAK256: u8 = 0x20;
pub const POP: u8 = 0x50;
pub const MLOAD: u8 = 0x51;
pub const MSTORE: u8 = 0x52;
pub const MSTORE8: u8 = 0x53;
pub const SLOAD: u8 = 0x54;
pub const SSTORE: u8 = 0x55;
pub const JUMP: u8 = 0x56;
pub const JUMPI: u8 = 0x57;
pub const PC: u8 = 0x58;
pub const JUMPDEST: u8 = 0x5b;
pub const TLOAD: u8 = 0x5c;
pub const TSTORE: u8 = 0x5d;
pub const PUSH0: u8 = 0x5f;
pub const PUSH1: u8 = 0x60;
pub const PUSH32: u8 = 0x7f;
pub const DUP1: u8 = 0x80;
pub const DUP16: u8 = 0x8f;
pub const SWAP1: u8 = 0x90;
pub const SWAP16: u8 = 0x9f;
pub const LOG0: u8 = 0xa0;
pub const LOG4: u8 = 0xa4;
pub const CREATE: u8 = 0xf0;
pub const CALL: u8 = 0xf1;
pub const CALLCODE: u8 = 0xf2;
pub const RETURN: u8 = 0xf3;
pub const DELEGATECALL: u8 = 0xf4;
pub const CREATE2: u8 = 0xf5;
pub const STATICCALL: u8 = 0xfa;
pub const REVERT: u8 = 0xfd;
pub const INVALID: u8 = 0xfe;
pub const SELFDESTRUCT: u8 = 0xff;

/// The four instructions that call another account.
#[derive(Clone, Copy, Debug, PartialEq, Eq, Structural)]
pub enum CallKind {
    Call,
    CallCode,
    DelegateCall,
    StaticCall,
}

/// The handlers. Each instruction has exactly one.
#[derive(Clone, Copy, Debug, PartialEq, Eq, Structural)]
pub enum Handler {
    /// An instruction that touches the stack alone: it takes `pops` words
    /// from it and leaves `pushes` words on it.
    StackOnly { pops: usize, pushes: usize },
    /// The conditional jump.
    Jumpi,
    /// A copy of the `depth`-th word onto the top.
    Dup { depth: usize },
    /// An exchange of the top with the word `depth` below it.
    Swap { depth: usize },
    /// A load from the account's storage.
    Sload,
    /// A store to the account's storage.
    Sstore,
    /// A load from the transaction's transient storage.
    Tload,
    /// A store to the transaction's transient storage.
    Tstore,
    /// A load of one word from memory.
    Mload,
    /// A store of one word to memory.
    Mstore,
    /// A store of one byte to memory.
    Mstore8,
    /// A log entry with `topics` topics.
    Log { topics: usize },
    /// A call of another account.
    Call { kind: CallKind },
    /// The creation of an account; `salted` where the caller picks the salt
    /// of the new address.
    Create { salted: bool },
    /// An instruction that ends its frame after it took `pops` words.
    Halt { pops: usize },
    /// An instruction that ends its frame and hands a range of memory back.
    Return,
    /// The hash of a range of memory.
    Keccak,
    /// A copy into memory of what is not in it. The instruction takes `pops`
    /// words; the place to copy to is the word `dest` of the stack, and the
    /// length the word `size`.
    CopyToMemory { pops: usize, dest: usize, size: usize },
    /// A copy from memory to memory.
    Mcopy,
    /// The read of a field of an account: of the one whose address the
    /// instruction takes from the stack, where `pops` is 1, and of the
    /// account of the frame at work, where `pops` is 0.
    AccountRead { pops: usize, field: AccountField },
    /// The read of a field of the frame at work.
    ContextRead { field: CallContextField },
}

/// The handler of the instruction `op`; none where no instruction has this
/// identifier.
pub open spec fn handler_for(op: u8) -> Option<Handler> {
    if op == 0x00 {
        Some(Handler::Halt { pops: 0 })
    } else if 0x01 <= op <= 0x07 || 0x0a <= op <= 0x0b || 0x10 <= op <= 0x14 || 0x16 <= op <= 0x18
        || 0x1a <= op <= 0x1d {
        Some(Handler::StackOnly { pops: 2, pushes: 1 })
    } else if op == 0x20 {
        Some(Handler::Keccak)
    } else if 0x08 <= op <= 0x09 {
        Some(Handler::StackOnly { pops: 3, pushes: 1 })
    } else if op == 0x15 || op == 0x19 || op == 0x35 || op == 0x3b || op == 0x40 || op == 0x49 {
        Some(Handler::StackOnly { pops: 1, pushes: 1 })
    } else if op == 0x30 {
        Some(Handler::ContextRead { field: CallContextField::CalleeAddress })
    } else if op == 0x33 {
        Some(Handler::ContextRead { field: CallContextField::CallerAddress })
    } else if op == 0x31 {
        Some(Handler::AccountRead { pops: 1, field: AccountField::Balance })
    } else if op == 0x3f {
        Some(Handler::AccountRead { pops: 1, field: AccountField::CodeHash })
    } else if op == 0x47 {
        Some(Handler::AccountRead { pops: 0, field: AccountField::Balance })
    } else if op == 0x32 || op == 0x34 || op == 0x36 || op == 0x38 || op == 0x3a || op == 0x3d
        || 0x41 <= op <= 0x46 || op == 0x48 || op == 0x4a || 0x58 <= op <= 0x5a || 0x5f <= op
        <= 0x7f {
        Some(Handler::StackOnly { pops: 0, pushes: 1 })
    } else if op == 0x37 || op == 0x39 || op == 0x3e {
        Some(Handler::CopyToMemory { pops: 3, dest: 0, size: 2 })
    } else if op == 0x3c {
        Some(Handler::CopyToMemory { pops: 4, dest: 1, size: 3 })
    } else if op == 0x5e {
        Some(Handler::Mcopy)
    } else if op == 0x50 || op == 0x56 {
        Some(Handler::StackOnly { pops: 1, pushes: 0 })
    } else if op == 0x5b {
        Some(Handler::StackOnly { pops: 0, pushes: 0 })
    } else if op == 0x51 {
        Some(Handler::Mload)
    } else if op == 0x52 {
        Some(Handler::Mstore)
    } else if op == 0x53 {
        Some(Handler::Mstore8)
    } else if op == 0x54 {
        Some(Handler::Sload)
    } else if op == 0x55 {
        Some(Handler::Sstore)
    } else if op == 0x57 {
        Some(Handler::Jumpi)
    } else if op == 0x5c {
        Some(Handler::Tload)
    } else if op == 0x5d {
        Some(Handler::Tstore)
    } else if 0x80 <= op <= 0x8f {
        Some(Handler::Dup { depth: (op - 0x7f) as usize })
    } else if 0x90 <= op <= 0x9f {
        Some(Handler::Swap { depth: (op - 0x8f) as usize })
    } else if 0xa0 <= op <= 0xa4 {
        Some(Handler::Log { topics: (op - 0xa0) as usize })
    } else if op == 0xf0 {
        Some(Handler::Create { salted: false })
    } else if op == 0xf1 {
        Some(Handler::Call { kind: CallKind::Call })
    } else if op == 0xf2 {
        Some(Handler::Call { kind: CallKind::CallCode })
    } else if op == 0xf3 || op == 0xfd {
        Some(Handler::Return)
    } else if op == 0xf4 {
        Some(Handler::Call { kind: CallKind::DelegateCall })
    } else if op == 0xf5 {
        Some(Handler::Create { salted: true })
    } else if op == 0xfa {
        Some(Handler::Call { kind: CallKind::StaticCall })
    } else if op == 0xfe {
        Some(Handler::Halt { pops: 0 })
    } else if op == 0xff {
        Some(Handler::Halt { pops: 1 })
    } else {
        None
    }
}

/// The handler of the instruction `op`; none where no instruction has this
/// identifier.
pub fn handler_of(op: u8) -> (h: Option<Handler>)
    ensures
        h == handler_for(op),
{
    if op == 0x00 {
        Some(Handler::Halt { pops: 0 })
    } else if (0x01 <= op && op <= 0x07) || (0x0a <= op && op <= 0x0b) || (0x10 <= op && op
        <= 0x14) || (0x16 <= op && op <= 0x18) || (0x1a <= op && op <= 0x1d) {
        Some(Handler::StackOnly { pops: 2, pushes: 1 })
    } else if op == 0x20 {
        Some(Handler::Keccak)
    } else if 0x08 <= op && op <= 0x09 {
        Some(Handler::StackOnly { pops: 3, pushes: 1 })
    } else if op == 0x15 || op == 0x19 || op == 0x35 || op == 0x3b || op == 0x40 || op == 0x49 {
        Some(Handler::StackOnly { pops: 1, pushes: 1 })
    } else if op == 0x30 {
        Some(Handler::ContextRead { field: CallContextField::CalleeAddress })
    } else if op == 0x33 {
        Some(Handler::ContextRead { field: CallContextField::CallerAddress })
    } else if op == 0x31 {
        Some(Handler::AccountRead { pops: 1, field: AccountField::Balance })
    } else if op == 0x3f {
        Some(Handler::AccountRead { pops: 1, field: AccountField::CodeHash })
    } else if op == 0x47 {
        Some(Handler::AccountRead { pops: 0, field: AccountField::Balance })
    } else if op == 0x32 || op == 0x34 || op == 0x36 || op == 0x38 || op == 0x3a || op == 0x3d
        || (0x41 <= op && op <= 0x46) || op == 0x48 || op == 0x4a || (0x58 <= op && op <= 0x5a)
        || (0x5f <= op && op <= 0x7f) {
        Some(Handler::StackOnly { pops: 0, pushes: 1 })
    } else if op == 0x37 || op == 0x39 || op == 0x3e {
        Some(Handler::CopyToMemory { pops: 3, dest: 0, size: 2 })
    } else if op == 0x3c {
        Some(Handler::CopyToMemory { pops: 4, dest: 1, size: 3 })
    } else if op == 0x5e {
        Some(Handler::Mcopy)
    } else if op == 0x50 || op == 0x56 {
        Some(Handler::StackOnly { pops: 1, pushes: 0 })
    } else if op == 0x5b {
        Some(Handler::StackOnly { pops: 0, pushes: 0 })
    } else if op == 0x51 {
        Some(Handler::Mload)
    } else if op == 0x52 {
        Some(Handler::Mstore)
    } else if op == 0x53 {
        Some(Handler::Mstore8)
    } else if op == 0x54 {
        Some(Handler::Sload)
    } else if op == 0x55 {
        Some(Handler::Sstore)
    } else if op == 0x57 {
        Some(Handler::Jumpi)
    } else if op == 0x5c {
        Some(Handler::Tload)
    } else if op == 0x5d {
        Some(Handler::Tstore)
    } else if 0x80 <= op && op <= 0x8f {
        let depth: usize = (op - 0x7f) as usize;
        Some(Handler::Dup { depth })
    } else if 0x90 <= op && op <= 0x9f {
        let depth: usize = (op - 0x8f) as usize;
        Some(Handler::Swap { depth })
    } else if 0xa0 <= op && op <= 0xa4 {
        let topics: usize = (op - 0xa0) as usize;
        Some(Handler::Log { topics })
    } else if op == 0xf0 {
        Some(Handler::Create { salted: false })
    } else if op == 0xf1 {
        Some(Handler::Call { kind: CallKind::Call })
    } else if op == 0xf2 {
        Some(Handler::Call { kind: CallKind::CallCode })
    } else if op == 0xf3 || op == 0xfd {
        Some(Handler::Return)
    } else if op == 0xf4 {
        Some(Handler::Call { kind: CallKind::DelegateCall })
    } else if op == 0xf5 {
        Some(Handler::Create { salted: true })
    } else if op == 0xfa {
        Some(Handler::Call { kind: CallKind::StaticCall })
    } else if op == 0xfe {
        Some(Handler::Halt { pops: 0 })
    } else if op == 0xff {
        Some(Handler::Halt { pops: 1 })
    } else {
        None
    }
}

/// The words that an instruction takes from the stack and the words that it
/// leaves there, for the handlers that take the topmost words and leave their
/// results on top. `Dup` and `Swap` reach below the top and have no such
/// pair.
pub open spec fn stack_arity(h: Handler) -> Option<(nat, nat)> {
    match h {
        Handler::StackOnly { pops, pushes } => Some((pops as nat, pushes as nat)),
        Handler::Jumpi => Some((2, 0)),
        Handler::Dup { .. } => None,
        Handler::Swap { .. } => None,
        Handler::Sload => Some((1, 1)),
        Handler::Sstore => Some((2, 0)),
        Handler::Tload => Some((1, 1)),
        Handler::Tstore => Some((2, 0)),
        Handler::Mload => Some((1, 1)),
        Handler::Mstore => Some((2, 0)),
        Handler::Mstore8 => Some((2, 0)),
        Handler::Log { topics } => Some((2 + topics as nat, 0)),
        Handler::Call { kind } => Some(
            (
                if kind == CallKind::Call || kind == CallKind::CallCode {
                    7nat
                } else {
                    6nat
                },
                1,
            ),
        ),
        Handler::Create { salted } => Some((if salted { 4nat } else { 3nat }, 1)),
        Handler::Halt { pops } => Some((pops as nat, 0)),
        Handler::Return => Some((2, 0)),
        Handler::Keccak => Some((2, 1)),
        Handler::CopyToMemory { pops, .. } => Some((pops as nat, 0)),
        Handler::Mcopy => Some((3, 0)),
        Handler::AccountRead { pops, .. } => Some((pops as nat, 1)),
        Handler::ContextRead { .. } => Some((0, 1)),
    }
}

} // verus!
