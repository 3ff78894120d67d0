//! Gas costs of the opcodes and the meter that tracks consumption.

use vstd::prelude::*;
use crate::opcode::OpCode;

verus! {

/// The gas cost of each opcode.
pub open spec fn spec_gas_cost(opcode: OpCode) -> u64 {
    match opcode {
        OpCode::Push => 2,
        OpCode::Pop => 2,
        OpCode::Dup => 2,
        OpCode::Swap => 2,
        OpCode::Add => 3,
        OpCode::Sub => 3,
        OpCode::Mul => 3,
        OpCode::Div => 5,
        OpCode::Mod => 3,
        OpCode::Eq => 3,
        OpCode::Neq => 3,
        OpCode::Lt => 3,
        OpCode::Gt => 3,
        OpCode::Lte => 3,
        OpCode::Gte => 3,
        OpCode::And => 3,
        OpCode::Or => 3,
        OpCode::Not => 3,
        OpCode::Jump => 8,
        OpCode::JumpIf => 8,
        OpCode::Call => 40,
        OpCode::Return => 5,
        OpCode::Halt => 0,
        OpCode::Revert => 0,
        OpCode::LoadLocal => 3,
        OpCode::StoreLocal => 3,
        OpCode::MLoad => 3,
        OpCode::MStore => 3,
        OpCode::SLoad => 200,
        OpCode::SStore => 5000,
        OpCode::Caller => 2,
        OpCode::Balance => 100,
        OpCode::Transfer => 9000,
        OpCode::Timestamp => 2,
        OpCode::BlockHeight => 2,
        OpCode::SelfAddress => 2,
        OpCode::PushBytes => 3,
        OpCode::Hash => 30,
        OpCode::Keccak256 => 30,
        OpCode::VerifySig => 3000,
        OpCode::Log => 375,
        OpCode::Require => 5,
    }
}

/// Gas cost table — returns the gas cost for a given opcode.
pub fn gas_cost(opcode: OpCode) -> (c: u64)
    ensures
        c == spec_gas_cost(opcode),
{
    match opcode {
        OpCode::Push | OpCode::Pop | OpCode::Dup | OpCode::Swap | OpCode::Caller | OpCode::Timestamp | OpCode::BlockHeight | OpCode::SelfAddress => 2,
        OpCode::Add | OpCode::Sub | OpCode::Mul | OpCode::Mod | OpCode::Eq | OpCode::Neq | OpCode::Lt | OpCode::Gt | OpCode::Lte | OpCode::Gte | OpCode::And | OpCode::Or | OpCode::Not | OpCode::LoadLocal | OpCode::StoreLocal | OpCode::MLoad | OpCode::MStore | OpCode::PushBytes => 3,
        OpCode::Div | OpCode::Return | OpCode::Require => 5,
        OpCode::Jump | OpCode::JumpIf => 8,
        OpCode::Call => 40,
        OpCode::Halt | OpCode::Revert => 0,
        OpCode::SLoad => 200,
        OpCode::SStore => 5_000,
        OpCode::Balance => 100,
        OpCode::Transfer => 9_000,
        OpCode::Hash | OpCode::Keccak256 => 30,
        OpCode::VerifySig => 3_000,
        OpCode::Log => 375,
    }
}
/// Out-of-gas error.
#[derive(Debug, Clone, Copy, PartialEq, Eq, Structural)]
pub enum GasError {
    OutOfGas { limit: u64, used: u64 },
}

/// Tracks gas consumption during VM execution.
#[derive(Debug, Clone, Copy)]
pub struct GasMeter {
    /// Total gas budget for this execution.
    pub gas_limit: u64,
    /// Gas consumed so far.
    pub gas_used: u64,
}

/// `a + b`, capped at `u64::MAX`.
pub open spec fn saturating_sum(a: u64, b: u64) -> u64 {
    if a + b > u64::MAX { u64::MAX } else { (a + b) as u64 }
}

impl GasMeter {
    /// Create a new gas meter with the given limit.
    pub fn new(gas_limit: u64) -> (m: Self)
        ensures
            m.gas_limit == gas_limit,
            m.gas_used == 0,
    {
        Self { gas_limit, gas_used: 0 }
    }

    /// Consume `amount` gas.  The usage is added (saturating) even when the
    /// limit is exceeded, which is reported as an error.
    pub fn consume(&mut self, amount: u64) -> (r: Result<(), GasError>)
        ensures
            final(self).gas_limit == old(self).gas_limit,
            final(self).gas_used == saturating_sum(old(self).gas_used, amount),
            r is Ok <==> final(self).gas_used <= final(self).gas_limit,
            r matches Err(GasError::OutOfGas { limit, used }) ==> limit == final(self).gas_limit
                && used == final(self).gas_used,
    {
        self.gas_used = self.gas_used.saturating_add(amount);
        if self.gas_used > self.gas_limit {
            Err(GasError::OutOfGas { limit: self.gas_limit, used: self.gas_used })
        } else {
            Ok(())
        }
    }

    /// Consume gas for a specific opcode.
    pub fn consume_opcode(&mut self, opcode: OpCode) -> (r: Result<(), GasError>)
        ensures
            final(self).gas_limit == old(self).gas_limit,
            final(self).gas_used == saturating_sum(old(self).gas_used, spec_gas_cost(opcode)),
            r is Ok <==> final(self).gas_used <= final(self).gas_limit,
            r matches Err(GasError::OutOfGas { limit, used }) ==> limit == final(self).gas_limit
                && used == final(self).gas_used,
    {
        self.consume(gas_cost(opcode))
    }

    /// Remaining gas (zero once the limit is exceeded).
    pub fn remaining(&self) -> (r: u64)
        ensures
            r == gas_left(*self),
    {
        self.gas_limit.saturating_sub(self.gas_used)
    }

    /// Gas used so far.
    pub fn used(&self) -> (r: u64)
        ensures
            r == self.gas_used,
    {
        self.gas_used
    }
}

/// The gas left: the limit minus what was used, or zero once it is exceeded.
pub open spec fn gas_left(m: GasMeter) -> u64 {
    if m.gas_used <= m.gas_limit { (m.gas_limit - m.gas_used) as u64 } else { 0 }
}

/// Law: a `consume(amount)` that succeeds lowers the remaining gas by
/// exactly `amount` (when the used counter did not saturate).
pub proof fn lemma_consume_lowers_remaining(before: GasMeter, after: GasMeter, amount: u64)
    requires
        before.gas_used <= before.gas_limit,
        before.gas_used + amount <= u64::MAX,
        after.gas_limit == before.gas_limit,
        after.gas_used == saturating_sum(before.gas_used, amount),
        after.gas_used <= after.gas_limit,
    ensures
        gas_left(after) + amount == gas_left(before),
{
}

} // verus!
