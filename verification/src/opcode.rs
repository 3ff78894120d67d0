//! The bytecode instruction set of the Thunder virtual machine.

use vstd::prelude::*;

verus! {

/// The complete opcode set for the Thunder VM.
#[derive(Debug, Clone, Copy, PartialEq, Eq, Structural)]
pub enum OpCode {
    /// Push a u64 value onto the stack.
    Push,
    /// Pop the top value from the stack.
    Pop,
    /// Duplicate the top value.
    Dup,
    /// Swap the top two values.
    Swap,
    /// a + b
    Add,
    /// a - b
    Sub,
    /// a * b
    Mul,
    /// a / b
    Div,
    /// a % b
    Mod,
    /// a == b → push 1 or 0
    Eq,
    /// a != b → push 1 or 0
    Neq,
    /// a < b → push 1 or 0
    Lt,
    /// a > b → push 1 or 0
    Gt,
    /// a <= b → push 1 or 0
    Lte,
    /// a >= b → push 1 or 0
    Gte,
    /// Logical AND
    And,
    /// Logical OR
    Or,
    /// Logical NOT
    Not,
    /// Unconditional jump to address.
    Jump,
    /// Conditional jump (jump if top of stack is non-zero).
    JumpIf,
    /// Call a function at address (push return address).
    Call,
    /// Return from function call.
    Return,
    /// Halt execution (success).
    Halt,
    /// Revert execution (failure).
    Revert,
    /// Load local variable by index.
    LoadLocal,
    /// Store value to local variable by index.
    StoreLocal,
    /// Load 8 bytes (u64) from linear memory at offset.
    MLoad,
    /// Store 8 bytes (u64) into linear memory at offset.
    MStore,
    /// Load from persistent contract storage (key → value).
    SLoad,
    /// Store to persistent contract storage (key, value →).
    SStore,
    /// Push the caller's address onto the stack.
    Caller,
    /// Push the balance of an address onto the stack.
    Balance,
    /// Transfer coins from contract to an address.
    Transfer,
    /// Push the current block timestamp.
    Timestamp,
    /// Push the current block height.
    BlockHeight,
    /// Push the contract's own address.
    SelfAddress,
    /// Push a byte array into linear memory, pushes offset + length.
    PushBytes,
    /// Compute SHA-256 hash of top stack value (legacy).
    Hash,
    /// Compute Keccak-256 hash of a memory slice.
    Keccak256,
    /// Verify an Ed25519 signature read from memory.
    VerifySig,
    /// Emit a log event (topic_count on stack, then topics, then data).
    Log,
    /// Require condition (revert if top of stack is 0).
    Require,
}

/// The byte that encodes each opcode.
pub open spec fn spec_opcode_byte(op: OpCode) -> u8 {
    match op {
        OpCode::Push => 0x01,
        OpCode::Pop => 0x02,
        OpCode::Dup => 0x03,
        OpCode::Swap => 0x04,
        OpCode::Add => 0x10,
        OpCode::Sub => 0x11,
        OpCode::Mul => 0x12,
        OpCode::Div => 0x13,
        OpCode::Mod => 0x14,
        OpCode::Eq => 0x20,
        OpCode::Neq => 0x21,
        OpCode::Lt => 0x22,
        OpCode::Gt => 0x23,
        OpCode::Lte => 0x24,
        OpCode::Gte => 0x25,
        OpCode::And => 0x30,
        OpCode::Or => 0x31,
        OpCode::Not => 0x32,
        OpCode::Jump => 0x40,
        OpCode::JumpIf => 0x41,
        OpCode::Call => 0x42,
        OpCode::Return => 0x43,
        OpCode::Halt => 0x44,
        OpCode::Revert => 0x45,
        OpCode::LoadLocal => 0x50,
        OpCode::StoreLocal => 0x51,
        OpCode::MLoad => 0x52,
        OpCode::MStore => 0x53,
        OpCode::SLoad => 0x60,
        OpCode::SStore => 0x61,
        OpCode::Caller => 0x70,
        OpCode::Balance => 0x71,
        OpCode::Transfer => 0x72,
        OpCode::Timestamp => 0x73,
        OpCode::BlockHeight => 0x74,
        OpCode::SelfAddress => 0x75,
        OpCode::PushBytes => 0x80,
        OpCode::Hash => 0x81,
        OpCode::Keccak256 => 0x82,
        OpCode::VerifySig => 0x83,
        OpCode::Log => 0x90,
        OpCode::Require => 0xA0,
    }
}

/// The opcode that a byte decodes to, if any.
pub open spec fn spec_opcode_from_byte(byte: u8) -> Option<OpCode> {
    match byte {
        0x01 => Some(OpCode::Push),
        0x02 => Some(OpCode::Pop),
        0x03 => Some(OpCode::Dup),
        0x04 => Some(OpCode::Swap),
        0x10 => Some(OpCode::Add),
        0x11 => Some(OpCode::Sub),
        0x12 => Some(OpCode::Mul),
        0x13 => Some(OpCode::Div),
        0x14 => Some(OpCode::Mod),
        0x20 => Some(OpCode::Eq),
        0x21 => Some(OpCode::Neq),
        0x22 => Some(OpCode::Lt),
        0x23 => Some(OpCode::Gt),
        0x24 => Some(OpCode::Lte),
        0x25 => Some(OpCode::Gte),
        0x30 => Some(OpCode::And),
        0x31 => Some(OpCode::Or),
        0x32 => Some(OpCode::Not),
        0x40 => Some(OpCode::Jump),
        0x41 => Some(OpCode::JumpIf),
        0x42 => Some(OpCode::Call),
        0x43 => Some(OpCode::Return),
        0x44 => Some(OpCode::Halt),
        0x45 => Some(OpCode::Revert),
        0x50 => Some(OpCode::LoadLocal),
        0x51 => Some(OpCode::StoreLocal),
        0x52 => Some(OpCode::MLoad),
        0x53 => Some(OpCode::MStore),
        0x60 => Some(OpCode::SLoad),
        0x61 => Some(OpCode::SStore),
        0x70 => Some(OpCode::Caller),
        0x71 => Some(OpCode::Balance),
        0x72 => Some(OpCode::Transfer),
        0x73 => Some(OpCode::Timestamp),
        0x74 => Some(OpCode::BlockHeight),
        0x75 => Some(OpCode::SelfAddress),
        0x80 => Some(OpCode::PushBytes),
        0x81 => Some(OpCode::Hash),
        0x82 => Some(OpCode::Keccak256),
        0x83 => Some(OpCode::VerifySig),
        0x90 => Some(OpCode::Log),
        0xA0 => Some(OpCode::Require),
        _ => None,
    }
}

impl OpCode {
    /// Decode a single byte into an opcode.
    pub fn from_byte(byte: u8) -> (r: Option<Self>)
        ensures
            r == spec_opcode_from_byte(byte),
    {
        match byte {
            0x01 => Some(Self::Push),
            0x02 => Some(Self::Pop),
            0x03 => Some(Self::Dup),
            0x04 => Some(Self::Swap),
            0x10 => Some(Self::Add),
            0x11 => Some(Self::Sub),
            0x12 => Some(Self::Mul),
            0x13 => Some(Self::Div),
            0x14 => Some(Self::Mod),
            0x20 => Some(Self::Eq),
            0x21 => Some(Self::Neq),
            0x22 => Some(Self::Lt),
            0x23 => Some(Self::Gt),
            0x24 => Some(Self::Lte),
            0x25 => Some(Self::Gte),
            0x30 => Some(Self::And),
            0x31 => Some(Self::Or),
            0x32 => Some(Self::Not),
            0x40 => Some(Self::Jump),
            0x41 => Some(Self::JumpIf),
            0x42 => Some(Self::Call),
            0x43 => Some(Self::Return),
            0x44 => Some(Self::Halt),
            0x45 => Some(Self::Revert),
            0x50 => Some(Self::LoadLocal),
            0x51 => Some(Self::StoreLocal),
            0x52 => Some(Self::MLoad),
            0x53 => Some(Self::MStore),
            0x60 => Some(Self::SLoad),
            0x61 => Some(Self::SStore),
            0x70 => Some(Self::Caller),
            0x71 => Some(Self::Balance),
            0x72 => Some(Self::Transfer),
            0x73 => Some(Self::Timestamp),
            0x74 => Some(Self::BlockHeight),
            0x75 => Some(Self::SelfAddress),
            0x80 => Some(Self::PushBytes),
            0x81 => Some(Self::Hash),
            0x82 => Some(Self::Keccak256),
            0x83 => Some(Self::VerifySig),
            0x90 => Some(Self::Log),
            0xA0 => Some(Self::Require),
            _ => None,
        }
    }

    /// Encode the opcode to a single byte.
    pub fn to_byte(self) -> (b: u8)
        ensures
            b == spec_opcode_byte(self),
    {
        match self {
            Self::Push => 0x01,
            Self::Pop => 0x02,
            Self::Dup => 0x03,
            Self::Swap => 0x04,
            Self::Add => 0x10,
            Self::Sub => 0x11,
            Self::Mul => 0x12,
            Self::Div => 0x13,
            Self::Mod => 0x14,
            Self::Eq => 0x20,
            Self::Neq => 0x21,
            Self::Lt => 0x22,
            Self::Gt => 0x23,
            Self::Lte => 0x24,
            Self::Gte => 0x25,
            Self::And => 0x30,
            Self::Or => 0x31,
            Self::Not => 0x32,
            Self::Jump => 0x40,
            Self::JumpIf => 0x41,
            Self::Call => 0x42,
            Self::Return => 0x43,
            Self::Halt => 0x44,
            Self::Revert => 0x45,
            Self::LoadLocal => 0x50,
            Self::StoreLocal => 0x51,
            Self::MLoad => 0x52,
            Self::MStore => 0x53,
            Self::SLoad => 0x60,
            Self::SStore => 0x61,
            Self::Caller => 0x70,
            Self::Balance => 0x71,
            Self::Transfer => 0x72,
            Self::Timestamp => 0x73,
            Self::BlockHeight => 0x74,
            Self::SelfAddress => 0x75,
            Self::PushBytes => 0x80,
            Self::Hash => 0x81,
            Self::Keccak256 => 0x82,
            Self::VerifySig => 0x83,
            Self::Log => 0x90,
            Self::Require => 0xA0,
        }
    }
}

/// Law: decoding the byte of an opcode gives back that opcode.
pub proof fn lemma_opcode_byte_roundtrip(op: OpCode)
    ensures
        spec_opcode_from_byte(spec_opcode_byte(op)) == Some(op),
{
}

/// Law: a byte that decodes to an opcode is that opcode's byte.
pub proof fn lemma_opcode_byte_unique(byte: u8)
    ensures
        spec_opcode_from_byte(byte) matches Some(op) ==> spec_opcode_byte(op) == byte,
{
}

/// A decoded instruction: opcode, immediate operand and byte data.
#[derive(Debug, Clone)]
pub struct Instruction {
    pub opcode: OpCode,
    /// Immediate operand (used by Push, Jump, Call, LoadLocal, StoreLocal, etc).
    pub operand: u64,
    /// Byte data operand (used by PushBytes).
    pub data: Vec<u8>,
}

/// The abstract value of an instruction.
pub ghost struct InstructionView {
    pub opcode: OpCode,
    pub operand: u64,
    pub data: Seq<u8>,
}

impl View for Instruction {
    type V = InstructionView;

    open spec fn view(&self) -> InstructionView {
        InstructionView { opcode: self.opcode, operand: self.operand, data: self.data@ }
    }
}

/// An instruction without byte data.
pub open spec fn ins(opcode: OpCode, operand: u64) -> InstructionView {
    InstructionView { opcode, operand, data: Seq::empty() }
}

impl Instruction {
    pub fn new(opcode: OpCode) -> (i: Self)
        ensures
            i.opcode == opcode,
            i.operand == 0,
            i.data@.len() == 0,
            i@ == ins(opcode, 0),
    {
        let data: Vec<u8> = Vec::new();
        assert(data@ =~= Seq::<u8>::empty());
        Self { opcode, operand: 0, data }
    }

    pub fn with_operand(opcode: OpCode, operand: u64) -> (i: Self)
        ensures
            i.opcode == opcode,
            i.operand == operand,
            i.data@.len() == 0,
            i@ == ins(opcode, operand),
    {
        let data: Vec<u8> = Vec::new();
        assert(data@ =~= Seq::<u8>::empty());
        Self { opcode, operand, data }
    }

    pub fn with_data(opcode: OpCode, data: Vec<u8>) -> (i: Self)
        ensures
            i.opcode == opcode,
            i.operand == 0,
            i.data@ == data@,
    {
        Self { opcode, operand: 0, data }
    }
}

} // verus!
