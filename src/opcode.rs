//! The instruction set: decoding of opcode bytes, stack arity and static cost.
use vstd::prelude::*;

verus! {

/// One instruction. `PUSH(n)` carries `n` immediate bytes (1 to 32), `DUP(n)`
/// and `SWAP(n)` reach `n` words down (1 to 16), `LOG(n)` has `n` topics (0 to 4).
#[derive(Clone, Copy, PartialEq, Eq, Debug, Structural)]
pub enum Instruction {
    STOP,
    ADD,
    MUL,
    SUB,
    DIV,
    SDIV,
    MOD,
    SMOD,
    ADDMOD,
    MULMOD,
    EXP,
    SIGNEXTEND,
    LT,
    GT,
    SLT,
    SGT,
    EQ,
    ISZERO,
    AND,
    OR,
    XOR,
    NOT,
    BYTE,
    SHA3,
    ADDRESS,
    BALANCE,
    ORIGIN,
    CALLER,
    CALLVALUE,
    CALLDATALOAD,
    CALLDATASIZE,
    CALLDATACOPY,
    CODESIZE,
    CODECOPY,
    GASPRICE,
    EXTCODESIZE,
    EXTCODECOPY,
    BLOCKHASH,
    COINBASE,
    TIMESTAMP,
    NUMBER,
    DIFFICULTY,
    GASLIMIT,
    POP,
    MLOAD,
    MSTORE,
    MSTORE8,
    SLOAD,
    SSTORE,
    JUMP,
    JUMPI,
    PC,
    MSIZE,
    GAS,
    JUMPDEST,
    PUSH(usize),
    DUP(usize),
    SWAP(usize),
    LOG(usize),
    CREATE,
    CALL,
    CALLCODE,
    RETURN,
    DELEGATECALL,
    REVERT,
    INVALID,
    SUICIDE,
}

/// Whether the parameter of a family is in its range.
pub open spec fn is_valid(i: Instruction) -> bool {
    match i {
        Instruction::PUSH(n) => 1 <= n <= 32,
        Instruction::DUP(n) => 1 <= n <= 16,
        Instruction::SWAP(n) => 1 <= n <= 16,
        Instruction::LOG(n) => n <= 4,
        _ => true,
    }
}

/// The byte that encodes an instruction.
pub open spec fn opcode_byte(i: Instruction) -> int {
    match i {
        Instruction::STOP => 0x00,
        Instruction::ADD => 0x01,
        Instruction::MUL => 0x02,
        Instruction::SUB => 0x03,
        Instruction::DIV => 0x04,
        Instruction::SDIV => 0x05,
        Instruction::MOD => 0x06,
        Instruction::SMOD => 0x07,
        Instruction::ADDMOD => 0x08,
        Instruction::MULMOD => 0x09,
        Instruction::EXP => 0x0a,
        Instruction::SIGNEXTEND => 0x0b,
        Instruction::LT => 0x10,
        Instruction::GT => 0x11,
        Instruction::SLT => 0x12,
        Instruction::SGT => 0x13,
        Instruction::EQ => 0x14,
        Instruction::ISZERO => 0x15,
        Instruction::AND => 0x16,
        Instruction::OR => 0x17,
        Instruction::XOR => 0x18,
        Instruction::NOT => 0x19,
        Instruction::BYTE => 0x1a,
        Instruction::SHA3 => 0x20,
        Instruction::ADDRESS => 0x30,
        Instruction::BALANCE => 0x31,
        Instruction::ORIGIN => 0x32,
        Instruction::CALLER => 0x33,
        Instruction::CALLVALUE => 0x34,
        Instruction::CALLDATALOAD => 0x35,
        Instruction::CALLDATASIZE => 0x36,
        Instruction::CALLDATACOPY => 0x37,
        Instruction::CODESIZE => 0x38,
        Instruction::CODECOPY => 0x39,
        Instruction::GASPRICE => 0x3a,
        Instruction::EXTCODESIZE => 0x3b,
        Instruction::EXTCODECOPY => 0x3c,
        Instruction::BLOCKHASH => 0x40,
        Instruction::COINBASE => 0x41,
        Instruction::TIMESTAMP => 0x42,
        Instruction::NUMBER => 0x43,
        Instruction::DIFFICULTY => 0x44,
        Instruction::GASLIMIT => 0x45,
        Instruction::POP => 0x50,
        Instruction::MLOAD => 0x51,
        Instruction::MSTORE => 0x52,
        Instruction::MSTORE8 => 0x53,
        Instruction::SLOAD => 0x54,
        Instruction::SSTORE => 0x55,
        Instruction::JUMP => 0x56,
        Instruction::JUMPI => 0x57,
        Instruction::PC => 0x58,
        Instruction::MSIZE => 0x59,
        Instruction::GAS => 0x5a,
        Instruction::JUMPDEST => 0x5b,
        Instruction::CREATE => 0xf0,
        Instruction::CALL => 0xf1,
        Instruction::CALLCODE => 0xf2,
        Instruction::RETURN => 0xf3,
        Instruction::DELEGATECALL => 0xf4,
        Instruction::REVERT => 0xfd,
        Instruction::INVALID => 0xfe,
        Instruction::SUICIDE => 0xff,
        Instruction::PUSH(n) => 0x5f + n,
        Instruction::DUP(n) => 0x7f + n,
        Instruction::SWAP(n) => 0x8f + n,
        Instruction::LOG(n) => 0xa0 + n,
    }
}

/// The number of words an instruction pops and then pushes.
pub open spec fn stack_io(i: Instruction) -> (int, int) {
    match i {
        Instruction::STOP => (0, 0),
        Instruction::ADD => (2, 1),
        Instruction::MUL => (2, 1),
        Instruction::SUB => (2, 1),
        Instruction::DIV => (2, 1),
        Instruction::SDIV => (2, 1),
        Instruction::MOD => (2, 1),
        Instruction::SMOD => (2, 1),
        Instruction::ADDMOD => (3, 1),
        Instruction::MULMOD => (3, 1),
        Instruction::EXP => (2, 1),
        Instruction::SIGNEXTEND => (2, 1),
        Instruction::LT => (2, 1),
        Instruction::GT => (2, 1),
        Instruction::SLT => (2, 1),
        Instruction::SGT => (2, 1),
        Instruction::EQ => (2, 1),
        Instruction::ISZERO => (1, 1),
        Instruction::AND => (2, 1),
        Instruction::OR => (2, 1),
        Instruction::XOR => (2, 1),
        Instruction::NOT => (1, 1),
        Instruction::BYTE => (2, 1),
        Instruction::SHA3 => (2, 1),
        Instruction::ADDRESS => (0, 1),
        Instruction::BALANCE => (1, 1),
        Instruction::ORIGIN => (0, 1),
        Instruction::CALLER => (0, 1),
        Instruction::CALLVALUE => (0, 1),
        Instruction::CALLDATALOAD => (1, 1),
        Instruction::CALLDATASIZE => (0, 1),
        Instruction::CALLDATACOPY => (3, 0),
        Instruction::CODESIZE => (0, 1),
        Instruction::CODECOPY => (3, 0),
        Instruction::GASPRICE => (0, 1),
        Instruction::EXTCODESIZE => (1, 1),
        Instruction::EXTCODECOPY => (4, 0),
        Instruction::BLOCKHASH => (1, 1),
        Instruction::COINBASE => (0, 1),
        Instruction::TIMESTAMP => (0, 1),
        Instruction::NUMBER => (0, 1),
        Instruction::DIFFICULTY => (0, 1),
        Instruction::GASLIMIT => (0, 1),
        Instruction::POP => (1, 0),
        Instruction::MLOAD => (1, 1),
        Instruction::MSTORE => (2, 0),
        Instruction::MSTORE8 => (2, 0),
        Instruction::SLOAD => (1, 1),
        Instruction::SSTORE => (2, 0),
        Instruction::JUMP => (1, 0),
        Instruction::JUMPI => (2, 0),
        Instruction::PC => (0, 1),
        Instruction::MSIZE => (0, 1),
        Instruction::GAS => (0, 1),
        Instruction::JUMPDEST => (0, 0),
        Instruction::CREATE => (3, 1),
        Instruction::CALL => (7, 1),
        Instruction::CALLCODE => (7, 1),
        Instruction::RETURN => (2, 0),
        Instruction::DELEGATECALL => (6, 1),
        Instruction::REVERT => (2, 0),
        Instruction::INVALID => (0, 0),
        Instruction::SUICIDE => (1, 0),
        Instruction::PUSH(_) => (0, 1),
        Instruction::DUP(n) => (n as int, n + 1),
        Instruction::SWAP(n) => (n + 1, n + 1),
        Instruction::LOG(n) => (n + 2, 0),
    }
}

/// The part of an instruction's cost that depends on nothing but the instruction.
pub open spec fn static_cost(i: Instruction) -> nat {
    match i {
        Instruction::STOP => 0,
        Instruction::ADD => 3,
        Instruction::MUL => 5,
        Instruction::SUB => 3,
        Instruction::DIV => 5,
        Instruction::SDIV => 5,
        Instruction::MOD => 5,
        Instruction::SMOD => 5,
        Instruction::ADDMOD => 8,
        Instruction::MULMOD => 8,
        Instruction::EXP => 10,
        Instruction::SIGNEXTEND => 5,
        Instruction::LT => 3,
        Instruction::GT => 3,
        Instruction::SLT => 3,
        Instruction::SGT => 3,
        Instruction::EQ => 3,
        Instruction::ISZERO => 3,
        Instruction::AND => 3,
        Instruction::OR => 3,
        Instruction::XOR => 3,
        Instruction::NOT => 3,
        Instruction::BYTE => 3,
        Instruction::SHA3 => 30,
        Instruction::ADDRESS => 2,
        Instruction::BALANCE => 20,
        Instruction::ORIGIN => 2,
        Instruction::CALLER => 2,
        Instruction::CALLVALUE => 2,
        Instruction::CALLDATALOAD => 3,
        Instruction::CALLDATASIZE => 2,
        Instruction::CALLDATACOPY => 3,
        Instruction::CODESIZE => 2,
        Instruction::CODECOPY => 3,
        Instruction::GASPRICE => 2,
        Instruction::EXTCODESIZE => 20,
        Instruction::EXTCODECOPY => 20,
        Instruction::BLOCKHASH => 20,
        Instruction::COINBASE => 2,
        Instruction::TIMESTAMP => 2,
        Instruction::NUMBER => 2,
        Instruction::DIFFICULTY => 2,
        Instruction::GASLIMIT => 2,
        Instruction::POP => 2,
        Instruction::MLOAD => 3,
        Instruction::MSTORE => 3,
        Instruction::MSTORE8 => 3,
        Instruction::SLOAD => 0,
        Instruction::SSTORE => 0,
        Instruction::JUMP => 8,
        Instruction::JUMPI => 10,
        Instruction::PC => 2,
        Instruction::MSIZE => 2,
        Instruction::GAS => 2,
        Instruction::JUMPDEST => 1,
        Instruction::CREATE => 32000,
        Instruction::CALL => 0,
        Instruction::CALLCODE => 0,
        Instruction::RETURN => 0,
        Instruction::DELEGATECALL => 0,
        Instruction::REVERT => 0,
        Instruction::INVALID => 0,
        Instruction::SUICIDE => 0,
        Instruction::PUSH(_) => 3,
        Instruction::DUP(_) => 3,
        Instruction::SWAP(_) => 3,
        Instruction::LOG(_) => 0,
    }
}

/// Distinct instructions have distinct bytes.
pub proof fn lemma_opcode_byte_injective(i: Instruction, j: Instruction)
    requires
        is_valid(i),
        is_valid(j),
        opcode_byte(i) == opcode_byte(j),
    ensures
        i == j,
{
}

impl Instruction {
    /// The instruction that `byte` encodes, if any.
    pub fn decode(byte: u8) -> (r: Option<Instruction>)
        ensures
            r matches Some(i) ==> is_valid(i) && opcode_byte(i) == byte,
            r is None ==> forall|i: Instruction| is_valid(i) ==> #[trigger] opcode_byte(i) != byte,
    {
        match byte {
            0x00 => Some(Instruction::STOP),
            0x01 => Some(Instruction::ADD),
            0x02 => Some(Instruction::MUL),
            0x03 => Some(Instruction::SUB),
            0x04 => Some(Instruction::DIV),
            0x05 => Some(Instruction::SDIV),
            0x06 => Some(Instruction::MOD),
            0x07 => Some(Instruction::SMOD),
            0x08 => Some(Instruction::ADDMOD),
            0x09 => Some(Instruction::MULMOD),
            0x0a => Some(Instruction::EXP),
            0x0b => Some(Instruction::SIGNEXTEND),
            0x10 => Some(Instruction::LT),
            0x11 => Some(Instruction::GT),
            0x12 => Some(Instruction::SLT),
            0x13 => Some(Instruction::SGT),
            0x14 => Some(Instruction::EQ),
            0x15 => Some(Instruction::ISZERO),
            0x16 => Some(Instruction::AND),
            0x17 => Some(Instruction::OR),
            0x18 => Some(Instruction::XOR),
            0x19 => Some(Instruction::NOT),
            0x1a => Some(Instruction::BYTE),
            0x20 => Some(Instruction::SHA3),
            0x30 => Some(Instruction::ADDRESS),
            0x31 => Some(Instruction::BALANCE),
            0x32 => Some(Instruction::ORIGIN),
            0x33 => Some(Instruction::CALLER),
            0x34 => Some(Instruction::CALLVALUE),
            0x35 => Some(Instruction::CALLDATALOAD),
            0x36 => Some(Instruction::CALLDATASIZE),
            0x37 => Some(Instruction::CALLDATACOPY),
            0x38 => Some(Instruction::CODESIZE),
            0x39 => Some(Instruction::CODECOPY),
            0x3a => Some(Instruction::GASPRICE),
            0x3b => Some(Instruction::EXTCODESIZE),
            0x3c => Some(Instruction::EXTCODECOPY),
            0x40 => Some(Instruction::BLOCKHASH),
            0x41 => Some(Instruction::COINBASE),
            0x42 => Some(Instruction::TIMESTAMP),
            0x43 => Some(Instruction::NUMBER),
            0x44 => Some(Instruction::DIFFICULTY),
            0x45 => Some(Instruction::GASLIMIT),
            0x50 => Some(Instruction::POP),
            0x51 => Some(Instruction::MLOAD),
            0x52 => Some(Instruction::MSTORE),
            0x53 => Some(Instruction::MSTORE8),
            0x54 => Some(Instruction::SLOAD),
            0x55 => Some(Instruction::SSTORE),
            0x56 => Some(Instruction::JUMP),
            0x57 => Some(Instruction::JUMPI),
            0x58 => Some(Instruction::PC),
            0x59 => Some(Instruction::MSIZE),
            0x5a => Some(Instruction::GAS),
            0x5b => Some(Instruction::JUMPDEST),
            0xf0 => Some(Instruction::CREATE),
            0xf1 => Some(Instruction::CALL),
            0xf2 => Some(Instruction::CALLCODE),
            0xf3 => Some(Instruction::RETURN),
            0xf4 => Some(Instruction::DELEGATECALL),
            0xfd => Some(Instruction::REVERT),
            0xfe => Some(Instruction::INVALID),
            0xff => Some(Instruction::SUICIDE),
            0x60..=0x7f => Some(Instruction::PUSH((byte - 0x5f) as usize)),
            0x80..=0x8f => Some(Instruction::DUP((byte - 0x7f) as usize)),
            0x90..=0x9f => Some(Instruction::SWAP((byte - 0x8f) as usize)),
            0xa0..=0xa4 => Some(Instruction::LOG((byte - 0xa0) as usize)),
            _ => None,
        }
    }

    /// The number of words the instruction pops and then pushes.
    pub fn stack_io(&self) -> (r: (usize, usize))
        requires
            is_valid(*self),
        ensures
            r.0 == stack_io(*self).0,
            r.1 == stack_io(*self).1,
    {
        match *self {
            Instruction::STOP => (0, 0),
            Instruction::ADD => (2, 1),
            Instruction::MUL => (2, 1),
            Instruction::SUB => (2, 1),
            Instruction::DIV => (2, 1),
            Instruction::SDIV => (2, 1),
            Instruction::MOD => (2, 1),
            Instruction::SMOD => (2, 1),
            Instruction::ADDMOD => (3, 1),
            Instruction::MULMOD => (3, 1),
            Instruction::EXP => (2, 1),
            Instruction::SIGNEXTEND => (2, 1),
            Instruction::LT => (2, 1),
            Instruction::GT => (2, 1),
            Instruction::SLT => (2, 1),
            Instruction::SGT => (2, 1),
            Instruction::EQ => (2, 1),
            Instruction::ISZERO => (1, 1),
            Instruction::AND => (2, 1),
            Instruction::OR => (2, 1),
            Instruction::XOR => (2, 1),
            Instruction::NOT => (1, 1),
            Instruction::BYTE => (2, 1),
            Instruction::SHA3 => (2, 1),
            Instruction::ADDRESS => (0, 1),
            Instruction::BALANCE => (1, 1),
            Instruction::ORIGIN => (0, 1),
            Instruction::CALLER => (0, 1),
            Instruction::CALLVALUE => (0, 1),
            Instruction::CALLDATALOAD => (1, 1),
            Instruction::CALLDATASIZE => (0, 1),
            Instruction::CALLDATACOPY => (3, 0),
            Instruction::CODESIZE => (0, 1),
            Instruction::CODECOPY => (3, 0),
            Instruction::GASPRICE => (0, 1),
            Instruction::EXTCODESIZE => (1, 1),
            Instruction::EXTCODECOPY => (4, 0),
            Instruction::BLOCKHASH => (1, 1),
            Instruction::COINBASE => (0, 1),
            Instruction::TIMESTAMP => (0, 1),
            Instruction::NUMBER => (0, 1),
            Instruction::DIFFICULTY => (0, 1),
            Instruction::GASLIMIT => (0, 1),
            Instruction::POP => (1, 0),
            Instruction::MLOAD => (1, 1),
            Instruction::MSTORE => (2, 0),
            Instruction::MSTORE8 => (2, 0),
            Instruction::SLOAD => (1, 1),
            Instruction::SSTORE => (2, 0),
            Instruction::JUMP => (1, 0),
            Instruction::JUMPI => (2, 0),
            Instruction::PC => (0, 1),
            Instruction::MSIZE => (0, 1),
            Instruction::GAS => (0, 1),
            Instruction::JUMPDEST => (0, 0),
            Instruction::CREATE => (3, 1),
            Instruction::CALL => (7, 1),
            Instruction::CALLCODE => (7, 1),
            Instruction::RETURN => (2, 0),
            Instruction::DELEGATECALL => (6, 1),
            Instruction::REVERT => (2, 0),
            Instruction::INVALID => (0, 0),
            Instruction::SUICIDE => (1, 0),
            Instruction::PUSH(_) => (0, 1),
            Instruction::DUP(n) => (n, n + 1),
            Instruction::SWAP(n) => (n + 1, n + 1),
            Instruction::LOG(n) => (n + 2, 0),
        }
    }

    /// The part of the cost that depends on nothing but the instruction.
    pub fn static_gas(&self) -> (r: u64)
        ensures
            r == static_cost(*self),
            r <= 32000,
    {
        match *self {
            Instruction::STOP => 0,
            Instruction::ADD => 3,
            Instruction::MUL => 5,
            Instruction::SUB => 3,
            Instruction::DIV => 5,
            Instruction::SDIV => 5,
            Instruction::MOD => 5,
            Instruction::SMOD => 5,
            Instruction::ADDMOD => 8,
            Instruction::MULMOD => 8,
            Instruction::EXP => 10,
            Instruction::SIGNEXTEND => 5,
            Instruction::LT => 3,
            Instruction::GT => 3,
            Instruction::SLT => 3,
            Instruction::SGT => 3,
            Instruction::EQ => 3,
            Instruction::ISZERO => 3,
            Instruction::AND => 3,
            Instruction::OR => 3,
            Instruction::XOR => 3,
            Instruction::NOT => 3,
            Instruction::BYTE => 3,
            Instruction::SHA3 => 30,
            Instruction::ADDRESS => 2,
            Instruction::BALANCE => 20,
            Instruction::ORIGIN => 2,
            Instruction::CALLER => 2,
            Instruction::CALLVALUE => 2,
            Instruction::CALLDATALOAD => 3,
            Instruction::CALLDATASIZE => 2,
            Instruction::CALLDATACOPY => 3,
            Instruction::CODESIZE => 2,
            Instruction::CODECOPY => 3,
            Instruction::GASPRICE => 2,
            Instruction::EXTCODESIZE => 20,
            Instruction::EXTCODECOPY => 20,
            Instruction::BLOCKHASH => 20,
            Instruction::COINBASE => 2,
            Instruction::TIMESTAMP => 2,
            Instruction::NUMBER => 2,
            Instruction::DIFFICULTY => 2,
            Instruction::GASLIMIT => 2,
            Instruction::POP => 2,
            Instruction::MLOAD => 3,
            Instruction::MSTORE => 3,
            Instruction::MSTORE8 => 3,
            Instruction::SLOAD => 0,
            Instruction::SSTORE => 0,
            Instruction::JUMP => 8,
            Instruction::JUMPI => 10,
            Instruction::PC => 2,
            Instruction::MSIZE => 2,
            Instruction::GAS => 2,
            Instruction::JUMPDEST => 1,
            Instruction::CREATE => 32000,
            Instruction::CALL => 0,
            Instruction::CALLCODE => 0,
            Instruction::RETURN => 0,
            Instruction::DELEGATECALL => 0,
            Instruction::REVERT => 0,
            Instruction::INVALID => 0,
            Instruction::SUICIDE => 0,
            Instruction::PUSH(_) => 3,
            Instruction::DUP(_) => 3,
            Instruction::SWAP(_) => 3,
            Instruction::LOG(_) => 0,
        }
    }
}

} // verus!
