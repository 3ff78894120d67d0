//! The stack-based Thunder virtual machine: gas-metered execution with local
//! variables, call frames, persistent contract storage and blockchain context.

use vstd::prelude::*;
use vstd::bytes::{spec_u64_from_le_bytes, spec_u64_to_le_bytes, u64_from_le_bytes, u64_to_le_bytes};
use crate::crypto::{hash_sha256, spec_sha256, Address};
use crate::gas::{saturating_sum, spec_gas_cost, GasError, GasMeter};
use crate::keymap::{BalanceMap, ByteStore};
use crate::opcode::{Instruction, OpCode};
use crate::text::{decimal, decimal_text_u64};

verus! {

// ── Execution Context ──────────────────────────────────────────────────────

/// Blockchain context injected into the VM at execution time.
#[derive(Debug, Clone, Copy)]
pub struct ExecutionContext {
    /// Address of the account that initiated the transaction.
    pub caller: Address,
    /// Address of the contract being executed.
    pub contract_address: Address,
    /// Value (coins) sent with this call.
    pub value: u64,
    /// Current block timestamp.
    pub timestamp: u64,
    /// Current block height.
    pub block_height: u64,
}

/// A single frame on the call stack (function invocation).
#[derive(Debug, Clone, Copy)]
pub struct CallFrame {
    /// Instruction pointer to return to after this frame completes.
    pub return_pc: usize,
    /// Base index in the local-variable store for this frame.
    pub locals_base: usize,
    /// Number of local variables allocated for this frame.
    pub locals_count: usize,
}

/// An emitted event/log.
#[derive(Debug)]
pub struct LogEntry {
    pub topics: Vec<u64>,
    pub data: u64,
}

/// VM runtime errors.
#[derive(Debug)]
pub enum VmError {
    StackUnderflow,
    DivisionByZero,
    OutOfGas(String),
    InsufficientBalance,
    InvalidInstruction(usize),
}

/// The abstract error of a step.
pub ghost enum VmFault {
    StackUnderflow,
    DivisionByZero,
    OutOfGas { limit: u64, used: u64 },
    InsufficientBalance,
    InvalidInstruction(usize),
}

/// The text of an out-of-gas error: the limit and the gas that would have
/// been used.
pub open spec fn spec_out_of_gas_message(limit: u64, used: u64) -> Seq<char> {
    "out of gas: limit "@ + decimal(limit as nat) + ", used "@ + decimal(used as nat)
}

/// The message of an out-of-gas error.
fn out_of_gas_message(limit: u64, used: u64) -> (s: String)
    ensures
        s@ == spec_out_of_gas_message(limit, used),
{
    let mut s = String::from_str("out of gas: limit ");
    s.append(decimal_text_u64(limit).as_str());
    s.append(", used ");
    s.append(decimal_text_u64(used).as_str());
    s
}

/// An error value describes an abstract fault.
pub open spec fn error_matches(e: VmError, f: VmFault) -> bool {
    match (e, f) {
        (VmError::StackUnderflow, VmFault::StackUnderflow) => true,
        (VmError::DivisionByZero, VmFault::DivisionByZero) => true,
        (VmError::OutOfGas(msg), VmFault::OutOfGas { limit, used }) => msg@
            == spec_out_of_gas_message(limit, used),
        (VmError::InsufficientBalance, VmFault::InsufficientBalance) => true,
        (VmError::InvalidInstruction(a), VmFault::InvalidInstruction(b)) => a == b,
        _ => false,
    }
}

// ── Abstract machine state ─────────────────────────────────────────────────

/// The abstract state of the machine.
#[verifier::ext_equal]
pub ghost struct VmModel {
    pub pc: usize,
    pub stack: Seq<u64>,
    pub locals: Seq<u64>,
    pub frames: Seq<CallFrame>,
    pub gas: GasMeter,
    pub storage: Map<Seq<u8>, Seq<u8>>,
    pub logs: Seq<(Seq<u64>, u64)>,
    pub halted: bool,
    pub reverted: bool,
    pub revert_reason: Option<Seq<char>>,
    pub return_value: Option<u64>,
    pub balances: Map<Seq<u8>, u64>,
}

/// Outcome of a step: the state reached and whether it faulted.
pub type StepOutcome = (VmModel, Option<VmFault>);

pub open spec fn ok(s: VmModel) -> StepOutcome {
    (s, None)
}

pub open spec fn fault(s: VmModel, f: VmFault) -> StepOutcome {
    (s, Some(f))
}

pub open spec fn advance(s: VmModel) -> VmModel {
    VmModel { pc: (s.pc + 1) as usize, ..s }
}

pub open spec fn push(s: VmModel, v: u64) -> VmModel {
    VmModel { stack: s.stack.push(v), ..s }
}

pub open spec fn pop_stack(s: VmModel) -> VmModel {
    VmModel { stack: s.stack.drop_last(), ..s }
}

/// `n` zero words.
pub open spec fn zeros(n: nat) -> Seq<u64> {
    Seq::new(n, |i: int| 0u64)
}

/// The 20-byte address whose first eight bytes encode `v` (little endian)
/// and whose other bytes are zero.
pub open spec fn address_of_word(v: u64) -> Seq<u8> {
    spec_u64_to_le_bytes(v) + Seq::new(12, |i: int| 0u8)
}

/// The word made of the first eight bytes of `b` (little endian).
pub open spec fn word_of_bytes(b: Seq<u8>) -> u64 {
    spec_u64_from_le_bytes(b.subrange(0, 8))
}

/// Result of a two-operand operator.
pub open spec fn spec_binary_value(op: OpCode, a: u64, b: u64) -> u64 {
    match op {
        OpCode::Add => a.wrapping_add(b),
        OpCode::Sub => a.wrapping_sub(b),
        OpCode::Mul => a.wrapping_mul(b),
        OpCode::Eq => if a == b { 1 } else { 0 },
        OpCode::Neq => if a != b { 1 } else { 0 },
        OpCode::Lt => if a < b { 1 } else { 0 },
        OpCode::Gt => if a > b { 1 } else { 0 },
        OpCode::Lte => if a <= b { 1 } else { 0 },
        OpCode::Gte => if a >= b { 1 } else { 0 },
        OpCode::And => if a != 0 && b != 0 { 1 } else { 0 },
        OpCode::Or => if a != 0 || b != 0 { 1 } else { 0 },
        _ => 0,
    }
}

/// The base of the current frame's locals.
pub open spec fn frame_base(s: VmModel) -> usize {
    if s.frames.len() == 0 { 0 } else { s.frames.last().locals_base }
}


/// Pop two operands (`b` on top of `a`) and push `f(a, b)`.
pub open spec fn spec_binary(s: VmModel, op: OpCode) -> StepOutcome {
    if s.stack.len() == 0 {
        fault(s, VmFault::StackUnderflow)
    } else if s.stack.len() == 1 {
        fault(pop_stack(s), VmFault::StackUnderflow)
    } else {
        let b = s.stack.last();
        let s2 = pop_stack(s);
        let a = s2.stack.last();
        let s3 = pop_stack(s2);
        if op == OpCode::Div || op == OpCode::Mod {
            if b == 0 {
                fault(s3, VmFault::DivisionByZero)
            } else {
                ok(advance(push(s3, if op == OpCode::Div { a / b } else { a % b })))
            }
        } else {
            ok(advance(push(s3, spec_binary_value(op, a, b))))
        }
    }
}

/// Stack operations, `Not` and the blockchain context.
pub open spec fn spec_simple(s: VmModel, ctx: ExecutionContext, instr: Instruction) -> StepOutcome {
    match instr.opcode {
        OpCode::Push => ok(advance(push(s, instr.operand))),
        OpCode::Pop => if s.stack.len() == 0 {
            fault(s, VmFault::StackUnderflow)
        } else {
            ok(advance(pop_stack(s)))
        },
        OpCode::Dup => if s.stack.len() == 0 {
            fault(s, VmFault::StackUnderflow)
        } else {
            ok(advance(push(s, s.stack.last())))
        },
        OpCode::Swap => if s.stack.len() < 2 {
            fault(s, VmFault::StackUnderflow)
        } else {
            let n = s.stack.len();
            ok(advance(VmModel {
                stack: s.stack.update(n - 1, s.stack[n - 2]).update(n - 2, s.stack[n - 1]),
                ..s
            }))
        },
        OpCode::Not => if s.stack.len() == 0 {
            fault(s, VmFault::StackUnderflow)
        } else {
            let a = s.stack.last();
            ok(advance(push(pop_stack(s), if a == 0 { 1 } else { 0 })))
        },
        OpCode::Caller => ok(advance(push(s, word_of_bytes(ctx.caller@)))),
        OpCode::Timestamp => ok(advance(push(s, ctx.timestamp))),
        OpCode::BlockHeight => ok(advance(push(s, ctx.block_height))),
        OpCode::SelfAddress => ok(advance(push(s, word_of_bytes(ctx.contract_address@)))),
        OpCode::PushBytes => ok(advance(push(s, instr.data@.len() as u64))),
        _ => ok(s),
    }
}

/// Jumps, calls, returns, halting and reverting.
pub open spec fn spec_control(s: VmModel, instr: Instruction) -> StepOutcome {
    match instr.opcode {
        OpCode::Jump => ok(VmModel { pc: instr.operand as usize, ..s }),
        OpCode::JumpIf => if s.stack.len() == 0 {
            fault(s, VmFault::StackUnderflow)
        } else if s.stack.last() != 0 {
            ok(VmModel { pc: instr.operand as usize, ..pop_stack(s) })
        } else {
            ok(advance(pop_stack(s)))
        },
        OpCode::Call => if s.locals.len() + 16 > usize::MAX {
            fault(s, VmFault::InvalidInstruction(s.pc))
        } else {
            let frame = CallFrame {
                return_pc: (s.pc + 1) as usize,
                locals_base: s.locals.len() as usize,
                locals_count: 16,
            };
            ok(VmModel {
                pc: instr.operand as usize,
                locals: s.locals + zeros(16),
                frames: s.frames.push(frame),
                ..s
            })
        },
        OpCode::Return => if s.frames.len() > 0 {
            let frame = s.frames.last();
            ok(VmModel {
                pc: frame.return_pc,
                locals: if frame.locals_base <= s.locals.len() {
                    s.locals.subrange(0, frame.locals_base as int)
                } else {
                    s.locals
                },
                frames: s.frames.drop_last(),
                ..s
            })
        } else {
            ok(VmModel {
                halted: true,
                return_value: if s.stack.len() == 0 { None } else { Some(s.stack.last()) },
                ..s
            })
        },
        OpCode::Halt => ok(VmModel {
            halted: true,
            return_value: if s.stack.len() == 0 { None } else { Some(s.stack.last()) },
            ..s
        }),
        OpCode::Revert => ok(VmModel {
            reverted: true,
            revert_reason: Some("execution reverted"@),
            ..s
        }),
        OpCode::Require => if s.stack.len() == 0 {
            fault(s, VmFault::StackUnderflow)
        } else if s.stack.last() == 0 {
            ok(VmModel {
                reverted: true,
                revert_reason: Some("require failed"@),
                ..pop_stack(s)
            })
        } else {
            ok(advance(pop_stack(s)))
        },
        _ => ok(s),
    }
}

/// Local variables of the current frame.
pub open spec fn spec_locals(s: VmModel, instr: Instruction) -> StepOutcome {
    let idx = instr.operand as usize;
    let base = frame_base(s);
    match instr.opcode {
        OpCode::LoadLocal => if base + idx > usize::MAX {
            fault(s, VmFault::InvalidInstruction(s.pc))
        } else {
            let at = base + idx;
            ok(advance(push(s, if at < s.locals.len() { s.locals[at] } else { 0 })))
        },
        OpCode::StoreLocal => if s.stack.len() == 0 {
            fault(s, VmFault::StackUnderflow)
        } else if base + idx + 1 > usize::MAX {
            fault(pop_stack(s), VmFault::InvalidInstruction(s.pc))
        } else {
            let at = base + idx;
            let val = s.stack.last();
            let grown = if at >= s.locals.len() {
                s.locals + zeros((at + 1 - s.locals.len()) as nat)
            } else {
                s.locals
            };
            ok(advance(VmModel { locals: grown.update(at, val), ..pop_stack(s) }))
        },
        _ => ok(s),
    }
}

/// Contract storage, balances, hashing and logging.
pub open spec fn spec_world(s: VmModel, ctx: ExecutionContext, instr: Instruction) -> StepOutcome {
    match instr.opcode {
        OpCode::SLoad => if s.stack.len() == 0 {
            fault(s, VmFault::StackUnderflow)
        } else {
            let key = spec_u64_to_le_bytes(s.stack.last());
            let val = if s.storage.contains_key(key) && s.storage[key].len() >= 8 {
                word_of_bytes(s.storage[key])
            } else {
                0
            };
            ok(advance(push(pop_stack(s), val)))
        },
        OpCode::SStore => if s.stack.len() == 0 {
            fault(s, VmFault::StackUnderflow)
        } else if s.stack.len() == 1 {
            fault(pop_stack(s), VmFault::StackUnderflow)
        } else {
            let val = s.stack.last();
            let key = s.stack[s.stack.len() - 2];
            let s3 = pop_stack(pop_stack(s));
            ok(advance(VmModel {
                storage: s3.storage.insert(spec_u64_to_le_bytes(key), spec_u64_to_le_bytes(val)),
                ..s3
            }))
        },
        OpCode::Balance => if s.stack.len() == 0 {
            fault(s, VmFault::StackUnderflow)
        } else {
            let addr = address_of_word(s.stack.last());
            let bal = if s.balances.contains_key(addr) { s.balances[addr] } else { 0 };
            ok(advance(push(pop_stack(s), bal)))
        },
        OpCode::Transfer => if s.stack.len() == 0 {
            fault(s, VmFault::StackUnderflow)
        } else if s.stack.len() == 1 {
            fault(pop_stack(s), VmFault::StackUnderflow)
        } else {
            let amount = s.stack.last();
            let to = address_of_word(s.stack[s.stack.len() - 2]);
            let s3 = pop_stack(pop_stack(s));
            let me = ctx.contract_address@;
            let mine = if s.balances.contains_key(me) { s.balances[me] } else { 0 };
            if mine < amount {
                fault(s3, VmFault::InsufficientBalance)
            } else {
                let b1 = s.balances.insert(me, (mine - amount) as u64);
                let theirs = if b1.contains_key(to) { b1[to] } else { 0 };
                let b2 = b1.insert(to, theirs.wrapping_add(amount));
                ok(advance(push(VmModel { balances: b2, ..s3 }, 1)))
            }
        },
        OpCode::Hash => if s.stack.len() == 0 {
            fault(s, VmFault::StackUnderflow)
        } else {
            let h = spec_sha256(spec_u64_to_le_bytes(s.stack.last()));
            ok(advance(push(pop_stack(s), word_of_bytes(h))))
        },
        OpCode::Log => if s.stack.len() == 0 {
            fault(s, VmFault::StackUnderflow)
        } else {
            let count = s.stack.last() as usize;
            let rest = s.stack.drop_last();
            if rest.len() < count {
                fault(VmModel { stack: Seq::empty(), ..s }, VmFault::StackUnderflow)
            } else {
                let topics = rest.subrange(rest.len() - count, rest.len() as int).reverse();
                let below = rest.subrange(0, rest.len() - count);
                if below.len() == 0 {
                    fault(VmModel { stack: below, ..s }, VmFault::StackUnderflow)
                } else {
                    let data = below.last();
                    ok(advance(VmModel {
                        stack: below.drop_last(),
                        logs: s.logs.push((topics, data)),
                        ..s
                    }))
                }
            }
        },
        _ => ok(s),
    }
}

/// Effect of an instruction once its gas is paid.
pub open spec fn spec_execute_instruction(s: VmModel, ctx: ExecutionContext, instr: Instruction) -> StepOutcome {
    match instr.opcode {
        OpCode::Add | OpCode::Sub | OpCode::Mul | OpCode::Div | OpCode::Mod | OpCode::Eq
        | OpCode::Neq | OpCode::Lt | OpCode::Gt | OpCode::Lte | OpCode::Gte | OpCode::And
        | OpCode::Or => spec_binary(s, instr.opcode),
        OpCode::Push | OpCode::Pop | OpCode::Dup | OpCode::Swap | OpCode::Not | OpCode::Caller
        | OpCode::Timestamp | OpCode::BlockHeight | OpCode::SelfAddress
        | OpCode::PushBytes => spec_simple(s, ctx, instr),
        OpCode::Jump | OpCode::JumpIf | OpCode::Call | OpCode::Return | OpCode::Halt
        | OpCode::Revert | OpCode::Require => spec_control(s, instr),
        OpCode::LoadLocal | OpCode::StoreLocal => spec_locals(s, instr),
        OpCode::SLoad | OpCode::SStore | OpCode::Balance | OpCode::Transfer | OpCode::Hash
        | OpCode::Log => spec_world(s, ctx, instr),
        OpCode::MLoad | OpCode::MStore | OpCode::Keccak256
        | OpCode::VerifySig => fault(s, VmFault::InvalidInstruction(s.pc)),
    }
}

/// One step: past the end of the program the machine halts; otherwise the
/// instruction's gas is charged (faulting when the limit is exceeded) and the
/// instruction takes effect.
pub open spec fn spec_step(prog: Seq<Instruction>, ctx: ExecutionContext, s: VmModel) -> StepOutcome {
    if s.pc >= prog.len() {
        ok(VmModel { halted: true, ..s })
    } else {
        let instr = prog[s.pc as int];
        let used = saturating_sum(s.gas.gas_used, spec_gas_cost(instr.opcode));
        let charged = VmModel { gas: GasMeter { gas_used: used, ..s.gas }, ..s };
        if used > s.gas.gas_limit {
            fault(charged, VmFault::OutOfGas { limit: s.gas.gas_limit, used })
        } else {
            spec_execute_instruction(charged, ctx, instr)
        }
    }
}

/// Whether the machine still runs.
pub open spec fn running(prog: Seq<Instruction>, s: VmModel) -> bool {
    !s.halted && !s.reverted && s.pc < prog.len()
}

/// Steps until the machine halts, reverts, leaves the program or faults.
pub open spec fn spec_run(prog: Seq<Instruction>, ctx: ExecutionContext, s: VmModel) -> StepOutcome
    decreases
            (if s.gas.gas_used <= s.gas.gas_limit { s.gas.gas_limit - s.gas.gas_used } else { 0 }) as nat,
            (if running(prog, s) { 1int } else { 0int }),
    when s.gas.gas_limit < u64::MAX
{
    if !running(prog, s) {
        ok(s)
    } else {
        let next = spec_step(prog, ctx, s);
        if next.1 is Some {
            next
        } else {
            proof { lemma_step_progress(prog, ctx, s); }
            spec_run(prog, ctx, next.0)
        }
    }
}

/// At most `n` steps from `s`, ending early where the machine stops or
/// faults.
pub open spec fn run_steps(prog: Seq<Instruction>, ctx: ExecutionContext, s: VmModel, n: nat) -> StepOutcome
    decreases n,
{
    if !running(prog, s) || n == 0 {
        ok(s)
    } else {
        let next = spec_step(prog, ctx, s);
        if next.1 is Some {
            next
        } else {
            run_steps(prog, ctx, next.0, (n - 1) as nat)
        }
    }
}

/// The run from `s` stops (halts, reverts, leaves the program or faults)
/// within `n` steps.
pub open spec fn stops_within(prog: Seq<Instruction>, ctx: ExecutionContext, s: VmModel, n: nat) -> bool {
    run_steps(prog, ctx, s, n).1 is Some || !running(prog, run_steps(prog, ctx, s, n).0)
}

/// The run from `s` comes to an end: always below the largest gas limit
/// (every step that does not stop the machine costs gas), and at that limit
/// exactly when it stops within some number of steps.
pub open spec fn run_ends(prog: Seq<Instruction>, ctx: ExecutionContext, s: VmModel) -> bool {
    s.gas.gas_limit < u64::MAX || exists|n: nat| stops_within(prog, ctx, s, n)
}

/// Where the run from `s` ends, if it does.
pub open spec fn run_outcome(prog: Seq<Instruction>, ctx: ExecutionContext, s: VmModel) -> StepOutcome {
    if s.gas.gas_limit < u64::MAX {
        spec_run(prog, ctx, s)
    } else {
        run_steps(prog, ctx, s, choose|n: nat| stops_within(prog, ctx, s, n))
    }
}

/// A step that does not fault either stops the machine with its gas
/// unchanged or charges a positive amount within the limit.
pub proof fn lemma_step_progress(prog: Seq<Instruction>, ctx: ExecutionContext, s: VmModel)
    requires
        running(prog, s),
        s.gas.gas_limit < u64::MAX,
        spec_step(prog, ctx, s).1 is None,
    ensures
        spec_step(prog, ctx, s).0.gas.gas_limit == s.gas.gas_limit,
        spec_step(prog, ctx, s).0.gas.gas_used <= s.gas.gas_limit,
        (spec_step(prog, ctx, s).0.gas.gas_used > s.gas.gas_used)
            || (spec_step(prog, ctx, s).0.gas.gas_used == s.gas.gas_used && !running(prog, spec_step(prog, ctx, s).0)),
{
    let instr = prog[s.pc as int];
    let used = saturating_sum(s.gas.gas_used, spec_gas_cost(instr.opcode));
    let charged = VmModel { gas: GasMeter { gas_used: used, ..s.gas }, ..s };
    lemma_instruction_keeps_gas(charged, ctx, instr);
}

/// Law: a run that ends without a fault has stopped: the machine halted,
/// reverted or left the program. So a program that would loop forever ends
/// in a fault (out of gas at the latest), never in a normal result.
pub proof fn lemma_run_stops(prog: Seq<Instruction>, ctx: ExecutionContext, s: VmModel)
    requires
        s.gas.gas_limit < u64::MAX,
    ensures
        spec_run(prog, ctx, s).1 is None ==> !running(prog, spec_run(prog, ctx, s).0),
    decreases
            (if s.gas.gas_used <= s.gas.gas_limit { s.gas.gas_limit - s.gas.gas_used } else { 0 }) as nat,
            (if running(prog, s) { 1int } else { 0int }),
{
    if running(prog, s) {
        let next = spec_step(prog, ctx, s);
        if next.1 is None {
            lemma_step_progress(prog, ctx, s);
            lemma_run_stops(prog, ctx, next.0);
        }
    }
}

/// The arithmetic, comparison and logic opcodes that take two operands and
/// cannot fault on their values.
pub open spec fn is_binary_opcode(op: OpCode) -> bool {
    op == OpCode::Add || op == OpCode::Sub || op == OpCode::Mul || op == OpCode::Eq || op == OpCode::Neq
        || op == OpCode::Lt || op == OpCode::Gt || op == OpCode::Lte || op == OpCode::Gte || op == OpCode::And
        || op == OpCode::Or
}

/// Law: a step on such an opcode with two operands `a` and `b` (`b` on top)
/// and gas to pay for it succeeds: it replaces the two operands by
/// `spec_binary_value(op, a, b)` (wrapping arithmetic; 1 or 0 for
/// comparisons and logic), moves to the next instruction and charges the
/// opcode's gas; storage, logs, locals and everything else are unchanged.
pub proof fn lemma_binary_step(prog: Seq<Instruction>, ctx: ExecutionContext, s: VmModel, rest: Seq<u64>, a: u64, b: u64)
    requires
        s.pc < prog.len(),
        is_binary_opcode(prog[s.pc as int].opcode),
        s.stack == rest.push(a).push(b),
        s.gas.gas_used + spec_gas_cost(prog[s.pc as int].opcode) <= s.gas.gas_limit,
    ensures
        spec_step(prog, ctx, s) == ok(VmModel {
            stack: rest.push(spec_binary_value(prog[s.pc as int].opcode, a, b)),
            pc: (s.pc + 1) as usize,
            gas: GasMeter { gas_used: (s.gas.gas_used + spec_gas_cost(prog[s.pc as int].opcode)) as u64, ..s.gas },
            ..s
        }),
{
    let op = prog[s.pc as int].opcode;
    assert(s.stack.drop_last() =~= rest.push(a));
    assert(s.stack.drop_last().drop_last() =~= rest);
    assert(saturating_sum(s.gas.gas_used, spec_gas_cost(op)) == s.gas.gas_used + spec_gas_cost(op));
}

/// Law: the comparison and logic opcodes answer 1 for true and 0 for
/// false, with `a` the lower operand and `b` the one on top: `Lt` is 1
/// exactly when `a < b`, `Gt` when `a > b`, `Lte` when `a <= b` (so equal
/// operands give 1), `Gte` when `a >= b`, `Eq` when `a == b`, `Neq` when
/// `a != b`, `And` when both are non-zero and `Or` when either is. Each
/// answer is the negation of its opposite, and swapping the operands turns
/// `Lt` into `Gt` and `Lte` into `Gte`.
pub proof fn lemma_comparison_meaning(a: u64, b: u64)
    ensures
        spec_binary_value(OpCode::Lt, a, b) == 1 <==> a < b,
        spec_binary_value(OpCode::Gt, a, b) == 1 <==> a > b,
        spec_binary_value(OpCode::Lte, a, b) == 1 <==> a <= b,
        spec_binary_value(OpCode::Gte, a, b) == 1 <==> a >= b,
        spec_binary_value(OpCode::Eq, a, b) == 1 <==> a == b,
        spec_binary_value(OpCode::Neq, a, b) == 1 <==> a != b,
        spec_binary_value(OpCode::And, a, b) == 1 <==> (a != 0 && b != 0),
        spec_binary_value(OpCode::Or, a, b) == 1 <==> (a != 0 || b != 0),
        forall|op: OpCode|
            #![trigger spec_binary_value(op, a, b)]
            (op == OpCode::Lt || op == OpCode::Gt || op == OpCode::Lte || op == OpCode::Gte || op == OpCode::Eq
                || op == OpCode::Neq || op == OpCode::And || op == OpCode::Or) ==> spec_binary_value(op, a, b) <= 1,
        spec_binary_value(OpCode::Gte, a, b) == 1 - spec_binary_value(OpCode::Lt, a, b),
        spec_binary_value(OpCode::Lte, a, b) == 1 - spec_binary_value(OpCode::Gt, a, b),
        spec_binary_value(OpCode::Neq, a, b) == 1 - spec_binary_value(OpCode::Eq, a, b),
        spec_binary_value(OpCode::Gt, a, b) == spec_binary_value(OpCode::Lt, b, a),
        spec_binary_value(OpCode::Gte, a, b) == spec_binary_value(OpCode::Lte, b, a),
        a == b ==> spec_binary_value(OpCode::Lte, a, b) == 1 && spec_binary_value(OpCode::Gte, a, b) == 1
            && spec_binary_value(OpCode::Lt, a, b) == 0 && spec_binary_value(OpCode::Gt, a, b) == 0,
{
}

/// Law: a step on a comparison opcode with operands `a` and `b` (`b` on
/// top) and gas to pay for it replaces them by 1 when the comparison holds
/// of `a` and `b` and by 0 when it does not.
pub proof fn lemma_comparison_step(prog: Seq<Instruction>, ctx: ExecutionContext, s: VmModel, rest: Seq<u64>, a: u64, b: u64)
    requires
        s.pc < prog.len(),
        prog.len() <= usize::MAX,
        s.stack == rest.push(a).push(b),
        s.gas.gas_used + spec_gas_cost(prog[s.pc as int].opcode) <= s.gas.gas_limit,
    ensures
        ({
            let op = prog[s.pc as int].opcode;
            let holds = if op == OpCode::Lt { a < b } else if op == OpCode::Gt { a > b } else if op == OpCode::Lte {
                a <= b
            } else if op == OpCode::Gte { a >= b } else if op == OpCode::Eq { a == b } else { a != b };
            (op == OpCode::Lt || op == OpCode::Gt || op == OpCode::Lte || op == OpCode::Gte || op == OpCode::Eq
                || op == OpCode::Neq) ==> spec_step(prog, ctx, s).1 is None
                && spec_step(prog, ctx, s).0.stack == rest.push(if holds { 1u64 } else { 0u64 })
                && spec_step(prog, ctx, s).0.pc == s.pc + 1
        }),
{
    let op = prog[s.pc as int].opcode;
    if op == OpCode::Lt || op == OpCode::Gt || op == OpCode::Lte || op == OpCode::Gte || op == OpCode::Eq
        || op == OpCode::Neq {
        assert(is_binary_opcode(op));
        lemma_binary_step(prog, ctx, s, rest, a, b);
        lemma_comparison_meaning(a, b);
        let v = spec_binary_value(op, a, b);
        assert(v <= 1);
    }
}

/// Law: a step on `Div` or `Mod` with operands `a` and `b` (`b` on top) and
/// gas to pay for it faults with division by zero when `b` is 0, and
/// otherwise replaces the operands by the quotient `a / b` or the remainder
/// `a % b`, with `a == (a / b) * b + a % b` and `a % b < b`.
pub proof fn lemma_division_step(prog: Seq<Instruction>, ctx: ExecutionContext, s: VmModel, rest: Seq<u64>, a: u64, b: u64)
    requires
        s.pc < prog.len(),
        prog.len() <= usize::MAX,
        prog[s.pc as int].opcode == OpCode::Div || prog[s.pc as int].opcode == OpCode::Mod,
        s.stack == rest.push(a).push(b),
        s.gas.gas_used + spec_gas_cost(prog[s.pc as int].opcode) <= s.gas.gas_limit,
    ensures
        b == 0 ==> spec_step(prog, ctx, s).1 == Some(VmFault::DivisionByZero),
        b != 0 ==> spec_step(prog, ctx, s).1 is None && spec_step(prog, ctx, s).0.pc == s.pc + 1
            && spec_step(prog, ctx, s).0.stack.len() == rest.len() + 1
            && spec_step(prog, ctx, s).0.stack.drop_last() == rest
            && {
                let v = spec_step(prog, ctx, s).0.stack.last();
                if prog[s.pc as int].opcode == OpCode::Div {
                    v * b + a % b == a && a % b < b
                } else {
                    v == a % b && (a / b) * b + v == a && v < b
                }
            },
{
    let op = prog[s.pc as int].opcode;
    assert(s.stack.drop_last() =~= rest.push(a));
    assert(s.stack.drop_last().drop_last() =~= rest);
    assert(saturating_sum(s.gas.gas_used, spec_gas_cost(op)) == s.gas.gas_used + spec_gas_cost(op));
    if b != 0 {
        assert(rest.push(if op == OpCode::Div { a / b } else { a % b }).drop_last() =~= rest);
        assert((a / b) * b + a % b == a && a % b < b) by (nonlinear_arith)
            requires b != 0;
    }
}

/// Executing an instruction leaves the gas meter alone.
pub proof fn lemma_instruction_keeps_gas(s: VmModel, ctx: ExecutionContext, instr: Instruction)
    ensures
        spec_execute_instruction(s, ctx, instr).0.gas == s.gas,
        spec_execute_instruction(s, ctx, instr).1 is None && (instr.opcode == OpCode::Halt
            || instr.opcode == OpCode::Revert) ==> !running(
            Seq::empty(),
            spec_execute_instruction(s, ctx, instr).0,
        ) && (spec_execute_instruction(s, ctx, instr).0.halted
            || spec_execute_instruction(s, ctx, instr).0.reverted),
{
}


// ── Executable machine ─────────────────────────────────────────────────────

/// The views of a list of logs.
pub open spec fn logs_view(logs: Seq<LogEntry>) -> Seq<(Seq<u64>, u64)> {
    logs.map_values(|l: LogEntry| (l.topics@, l.data))
}

/// The view of an optional message.
pub open spec fn reason_view(r: Option<String>) -> Option<Seq<char>> {
    match r {
        Some(s) => Some(s@),
        None => None,
    }
}

/// Whether a step's result agrees with its abstract outcome.
pub open spec fn result_matches(r: Result<(), VmError>, f: Option<VmFault>) -> bool {
    match r {
        Ok(()) => f is None,
        Err(e) => f matches Some(g) && error_matches(e, g),
    }
}

/// The state of a freshly loaded machine.
pub open spec fn initial_model(ctx: ExecutionContext, gas_limit: u64, storage: Map<Seq<u8>, Seq<u8>>) -> VmModel {
    VmModel {
        pc: 0,
        stack: Seq::empty(),
        locals: zeros(256),
        frames: Seq::empty(),
        gas: GasMeter { gas_limit, gas_used: 0 },
        storage,
        logs: Seq::empty(),
        halted: false,
        reverted: false,
        revert_reason: None,
        return_value: None,
        balances: Map::empty().insert(ctx.contract_address@, 0u64),
    }
}

/// The Thunder Virtual Machine.
pub struct ThunderVm {
    /// The program (list of instructions).
    program: Vec<Instruction>,
    /// Instruction pointer.
    pc: usize,
    /// Operand stack.
    stack: Vec<u64>,
    /// Local variables (flat array, partitioned by call frames).
    locals: Vec<u64>,
    /// Call stack.
    call_stack: Vec<CallFrame>,
    /// Gas meter.
    gas: GasMeter,
    /// Blockchain context.
    ctx: ExecutionContext,
    /// Persistent contract storage (key → value).
    pub storage: ByteStore,
    /// Emitted logs.
    pub logs: Vec<LogEntry>,
    /// Whether execution has halted.
    halted: bool,
    /// Whether execution reverted.
    reverted: bool,
    /// Revert reason (if any).
    pub revert_reason: Option<String>,
    /// Return value (top of stack upon Halt).
    pub return_value: Option<u64>,
    /// Balances of accounts.
    pub balances: BalanceMap,
}

/// The result of VM execution.
pub struct VmResult {
    pub gas_used: u64,
    pub return_value: Option<u64>,
    pub reverted: bool,
    pub revert_reason: Option<String>,
    pub logs: Vec<LogEntry>,
    pub storage: ByteStore,
}

/// The state a run leaves: where it ran out of gas, the storage, logs and
/// balances it started with; otherwise the state it reached.
pub open spec fn settled(start: VmModel, o: StepOutcome) -> VmModel {
    if o.1 matches Some(VmFault::OutOfGas { .. }) {
        VmModel { storage: start.storage, logs: start.logs, balances: start.balances, ..o.0 }
    } else {
        o.0
    }
}

/// A result reports the final state of the machine.
pub open spec fn reports(res: VmResult, s: VmModel) -> bool {
    &&& res.gas_used == s.gas.gas_used
    &&& res.return_value == s.return_value
    &&& res.reverted == s.reverted
    &&& reason_view(res.revert_reason) == s.revert_reason
    &&& logs_view(res.logs@) == s.logs
    &&& res.storage@ == s.storage
}

/// The 20-byte address key whose first eight bytes encode `v`.
fn address_key(v: u64) -> (k: Vec<u8>)
    ensures
        k@ == address_of_word(v),
{
    let mut k = u64_to_le_bytes(v);
    let mut i: usize = 0;
    while i < 12
        invariant
            i <= 12,
            k@ == spec_u64_to_le_bytes(v) + Seq::new(i as nat, |j: int| 0u8),
        decreases 12 - i,
    {
        k.push(0u8);
        i += 1;
        assert(k@ =~= spec_u64_to_le_bytes(v) + Seq::new(i as nat, |j: int| 0u8));
    }
    k
}

/// The word made of the first eight bytes of `b`.
pub(crate) fn word_of(b: &[u8]) -> (w: u64)
    requires
        b@.len() >= 8,
    ensures
        w == word_of_bytes(b@),
{
    u64_from_le_bytes(vstd::slice::slice_subrange(b, 0, 8))
}

/// A copy of a list of logs.
fn copy_logs(logs: &Vec<LogEntry>) -> (r: Vec<LogEntry>)
    ensures
        logs_view(r@) == logs_view(logs@),
{
    let mut r: Vec<LogEntry> = Vec::new();
    let mut i: usize = 0;
    while i < logs.len()
        invariant
            i <= logs@.len(),
            logs_view(r@) == logs_view(logs@).take(i as int),
        decreases logs@.len() - i,
    {
        let ghost before = logs_view(r@);
        let entry = LogEntry { topics: vstd::slice::slice_to_vec(logs[i].topics.as_slice()), data: logs[i].data };
        r.push(entry);
        assert(logs_view(r@) =~= before.push((entry.topics@, entry.data)));
        assert(logs_view(logs@).take(i + 1) =~= logs_view(logs@).take(i as int).push(logs_view(logs@)[i as int]));
        i += 1;
    }
    assert(logs_view(logs@).take(logs@.len() as int) =~= logs_view(logs@));
    r
}

impl ThunderVm {
    /// The abstract state of the machine.
    pub closed spec fn model(&self) -> VmModel {
        VmModel {
            pc: self.pc,
            stack: self.stack@,
            locals: self.locals@,
            frames: self.call_stack@,
            gas: self.gas,
            storage: self.storage@,
            logs: logs_view(self.logs@),
            halted: self.halted,
            reverted: self.reverted,
            revert_reason: reason_view(self.revert_reason),
            return_value: self.return_value,
            balances: self.balances@,
        }
    }

    /// The machine's contract storage.
    pub fn storage(&self) -> (st: &ByteStore)
        ensures
            st@ == self.model().storage,
    {
        &self.storage
    }

    /// The logs emitted so far.
    pub fn logs(&self) -> (l: &Vec<LogEntry>)
        ensures
            logs_view(l@) == self.model().logs,
    {
        &self.logs
    }

    /// The loaded program.
    pub closed spec fn program_view(&self) -> Seq<Instruction> {
        self.program@
    }

    /// The blockchain context.
    pub closed spec fn context(&self) -> ExecutionContext {
        self.ctx
    }

    /// Create a new VM loaded with a program.
    pub fn new(program: Vec<Instruction>, ctx: ExecutionContext, gas_limit: u64, storage: ByteStore) -> (vm: Self)
        ensures
            vm.program_view() == program@,
            vm.context() == ctx,
            vm.model() == initial_model(ctx, gas_limit, storage@),
    {
        let mut balances = BalanceMap::new();
        balances.insert(vstd::slice::slice_to_vec(ctx.contract_address.as_slice()), 0);
        let mut locals: Vec<u64> = Vec::new();
        locals.resize(256, 0u64);
        assert(locals@ =~= zeros(256));
        let vm = Self {
            program,
            pc: 0,
            stack: Vec::new(),
            locals,
            call_stack: Vec::new(),
            gas: GasMeter::new(gas_limit),
            ctx,
            storage,
            logs: Vec::new(),
            halted: false,
            reverted: false,
            revert_reason: None,
            return_value: None,
            balances,
        };
        assert(vm.model() =~= initial_model(ctx, gas_limit, storage@));
        vm
    }

    /// Pop the top of the stack.
    fn pop(&mut self) -> (r: Result<u64, VmError>)
        ensures
            final(self).program == old(self).program,
            final(self).ctx == old(self).ctx,
            old(self).stack@.len() == 0 ==> (r matches Err(VmError::StackUnderflow) && final(self).model() == old(self).model()),
            old(self).stack@.len() > 0 ==> r == Ok::<u64, VmError>(old(self).stack@.last()) && final(self).model() == pop_stack(old(self).model()),
    {
        match self.stack.pop() {
            Some(v) => {
                assert(self.model() =~= pop_stack(old(self).model()));
                Ok(v)
            },
            None => Err(VmError::StackUnderflow),
        }
    }

    /// Push onto the stack.
    fn push_value(&mut self, v: u64)
        ensures
            final(self).program == old(self).program,
            final(self).ctx == old(self).ctx,
            final(self).model() == push(old(self).model(), v),
    {
        self.stack.push(v);
        assert(self.model() =~= push(old(self).model(), v));
    }

    /// Move to the next instruction.
    fn next(&mut self)
        requires
            old(self).pc < old(self).program@.len(),
        ensures
            final(self).program == old(self).program,
            final(self).ctx == old(self).ctx,
            final(self).model() == advance(old(self).model()),
    {
        let n = self.program.len();
        assert(self.pc < n);
        self.pc = self.pc + 1;
        assert(self.model() =~= advance(old(self).model()));
    }

    /// Arithmetic, comparison and logic on the two top operands.
    fn exec_binary(&mut self, op: OpCode) -> (r: Result<(), VmError>)
        requires
            old(self).pc < old(self).program@.len(),
        ensures
            final(self).program == old(self).program,
            final(self).ctx == old(self).ctx,
            final(self).model() == spec_binary(old(self).model(), op).0,
            result_matches(r, spec_binary(old(self).model(), op).1),
    {
        let ghost s = self.model();
        let b = match self.pop() {
            Ok(v) => v,
            Err(e) => return Err(e),
        };
        let a = match self.pop() {
            Ok(v) => v,
            Err(e) => return Err(e),
        };
        if op == OpCode::Div || op == OpCode::Mod {
            if b == 0 {
                return Err(VmError::DivisionByZero);
            }
            let v = if op == OpCode::Div { a / b } else { a % b };
            self.push_value(v);
        } else {
            let v = match op {
                OpCode::Add => a.wrapping_add(b),
                OpCode::Sub => a.wrapping_sub(b),
                OpCode::Mul => a.wrapping_mul(b),
                OpCode::Eq => if a == b { 1 } else { 0 },
                OpCode::Neq => if a != b { 1 } else { 0 },
                OpCode::Lt => if a < b { 1 } else { 0 },
                OpCode::Gt => if a > b { 1 } else { 0 },
                OpCode::Lte => if a <= b { 1 } else { 0 },
                OpCode::Gte => if a >= b { 1 } else { 0 },
                OpCode::And => if a != 0 && b != 0 { 1 } else { 0 },
                OpCode::Or => if a != 0 || b != 0 { 1 } else { 0 },
                _ => 0,
            };
            self.push_value(v);
        }
        self.next();
        Ok(())
    }

    /// Stack operations, `Not` and the blockchain context.
    fn exec_simple(&mut self, opcode: OpCode, operand: u64, data_len: usize, Ghost(instr): Ghost<Instruction>) -> (r: Result<(), VmError>)
        requires
            old(self).pc < old(self).program@.len(),
            instr.opcode == opcode,
            instr.operand == operand,
            instr.data@.len() == data_len,
        ensures
            final(self).program == old(self).program,
            final(self).ctx == old(self).ctx,
            final(self).model() == spec_simple(old(self).model(), old(self).ctx, instr).0,
            result_matches(r, spec_simple(old(self).model(), old(self).ctx, instr).1),
    {
        match opcode {
            OpCode::Push => {
                self.push_value(operand);
            },
            OpCode::Pop => {
                match self.pop() {
                    Ok(_) => {},
                    Err(e) => return Err(e),
                }
            },
            OpCode::Dup => {
                let n = self.stack.len();
                if n == 0 {
                    return Err(VmError::StackUnderflow);
                }
                let v = self.stack[n - 1];
                self.push_value(v);
            },
            OpCode::Swap => {
                let n = self.stack.len();
                if n < 2 {
                    return Err(VmError::StackUnderflow);
                }
                let top = self.stack[n - 1];
                let below = self.stack[n - 2];
                self.stack.set(n - 1, below);
                self.stack.set(n - 2, top);
                assert(self.model() =~= VmModel {
                    stack: old(self).stack@.update(n - 1, old(self).stack@[n - 2]).update(n - 2, old(self).stack@[n - 1]),
                    ..old(self).model()
                });
            },
            OpCode::Not => {
                let a = match self.pop() {
                    Ok(v) => v,
                    Err(e) => return Err(e),
                };
                self.push_value(if a == 0 { 1 } else { 0 });
            },
            OpCode::Caller => {
                let v = word_of(self.ctx.caller.as_slice());
                self.push_value(v);
            },
            OpCode::Timestamp => {
                let v = self.ctx.timestamp;
                self.push_value(v);
            },
            OpCode::BlockHeight => {
                let v = self.ctx.block_height;
                self.push_value(v);
            },
            OpCode::SelfAddress => {
                let v = word_of(self.ctx.contract_address.as_slice());
                self.push_value(v);
            },
            OpCode::PushBytes => {
                self.push_value(data_len as u64);
            },
            _ => {
                return Ok(());
            },
        }
        self.next();
        Ok(())
    }

    /// Jumps, calls, returns, halting, reverting and `Require`.
    fn exec_control(&mut self, opcode: OpCode, operand: u64, Ghost(instr): Ghost<Instruction>) -> (r: Result<(), VmError>)
        requires
            old(self).pc < old(self).program@.len(),
            instr.opcode == opcode,
            instr.operand == operand,
        ensures
            final(self).program == old(self).program,
            final(self).ctx == old(self).ctx,
            final(self).model() == spec_control(old(self).model(), instr).0,
            result_matches(r, spec_control(old(self).model(), instr).1),
    {
        let ghost s = self.model();
        match opcode {
            OpCode::Jump => {
                self.pc = operand as usize;
                assert(self.model() =~= VmModel { pc: operand as usize, ..s });
            },
            OpCode::JumpIf => {
                let cond = match self.pop() {
                    Ok(v) => v,
                    Err(e) => return Err(e),
                };
                if cond != 0 {
                    self.pc = operand as usize;
                    assert(self.model() =~= VmModel { pc: operand as usize, ..pop_stack(s) });
                } else {
                    self.next();
                }
            },
            OpCode::Call => {
                let base = self.locals.len();
                if base > usize::MAX - 16 {
                    return Err(VmError::InvalidInstruction(self.pc));
                }
                let plen = self.program.len();
                assert(self.pc < plen);
                let frame = CallFrame { return_pc: self.pc + 1, locals_base: base, locals_count: 16 };
                self.locals.resize(base + 16, 0u64);
                self.call_stack.push(frame);
                self.pc = operand as usize;
                assert(self.locals@ =~= s.locals + zeros(16));
                assert(self.model() =~= VmModel {
                    pc: operand as usize,
                    locals: s.locals + zeros(16),
                    frames: s.frames.push(frame),
                    ..s
                });
            },
            OpCode::Return => {
                match self.call_stack.pop() {
                    Some(frame) => {
                        self.locals.truncate(frame.locals_base);
                        self.pc = frame.return_pc;
                        assert(self.model() =~= VmModel {
                            pc: frame.return_pc,
                            locals: if frame.locals_base <= s.locals.len() {
                                s.locals.subrange(0, frame.locals_base as int)
                            } else {
                                s.locals
                            },
                            frames: s.frames.drop_last(),
                            ..s
                        });
                    },
                    None => {
                        self.halted = true;
                        self.return_value = self.top();
                        assert(self.model() =~= VmModel {
                            halted: true,
                            return_value: if s.stack.len() == 0 { None } else { Some(s.stack.last()) },
                            ..s
                        });
                    },
                }
            },
            OpCode::Halt => {
                self.halted = true;
                self.return_value = self.top();
                assert(self.model() =~= VmModel {
                    halted: true,
                    return_value: if s.stack.len() == 0 { None } else { Some(s.stack.last()) },
                    ..s
                });
            },
            OpCode::Revert => {
                self.reverted = true;
                self.revert_reason = Some(String::from_str("execution reverted"));
                assert(self.model() =~= VmModel {
                    reverted: true,
                    revert_reason: Some("execution reverted"@),
                    ..s
                });
            },
            OpCode::Require => {
                let cond = match self.pop() {
                    Ok(v) => v,
                    Err(e) => return Err(e),
                };
                if cond == 0 {
                    self.reverted = true;
                    self.revert_reason = Some(String::from_str("require failed"));
                    assert(self.model() =~= VmModel {
                        reverted: true,
                        revert_reason: Some("require failed"@),
                        ..pop_stack(s)
                    });
                } else {
                    self.next();
                }
            },
            _ => {},
        }
        Ok(())
    }

    /// The top of the stack, if any.
    fn top(&self) -> (r: Option<u64>)
        ensures
            r == (if self.stack@.len() == 0 { None } else { Some(self.stack@.last()) }),
    {
        let n = self.stack.len();
        if n == 0 { None } else { Some(self.stack[n - 1]) }
    }

    /// The base of the current frame's locals.
    fn current_base(&self) -> (b: usize)
        ensures
            b == frame_base(self.model()),
    {
        let n = self.call_stack.len();
        if n == 0 { 0 } else { self.call_stack[n - 1].locals_base }
    }

    /// Loading and storing local variables.
    fn exec_locals(&mut self, opcode: OpCode, operand: u64, Ghost(instr): Ghost<Instruction>) -> (r: Result<(), VmError>)
        requires
            old(self).pc < old(self).program@.len(),
            instr.opcode == opcode,
            instr.operand == operand,
        ensures
            final(self).program == old(self).program,
            final(self).ctx == old(self).ctx,
            final(self).model() == spec_locals(old(self).model(), instr).0,
            result_matches(r, spec_locals(old(self).model(), instr).1),
    {
        let ghost s = self.model();
        let idx = operand as usize;
        match opcode {
            OpCode::LoadLocal => {
                let base = self.current_base();
                if idx > usize::MAX - base {
                    return Err(VmError::InvalidInstruction(self.pc));
                }
                let at = base + idx;
                let v = if at < self.locals.len() { self.locals[at] } else { 0 };
                self.push_value(v);
                self.next();
            },
            OpCode::StoreLocal => {
                let val = match self.pop() {
                    Ok(v) => v,
                    Err(e) => return Err(e),
                };
                let base = self.current_base();
                if idx >= usize::MAX - base {
                    return Err(VmError::InvalidInstruction(self.pc));
                }
                let at = base + idx;
                let ghost before = self.locals@;
                if at >= self.locals.len() {
                    self.locals.resize(at + 1, 0u64);
                    assert(self.locals@ =~= before + zeros((at + 1 - before.len()) as nat));
                }
                self.locals.set(at, val);
                self.next();
                assert(self.model() =~= advance(VmModel {
                    locals: (if at >= before.len() {
                        before + zeros((at + 1 - before.len()) as nat)
                    } else {
                        before
                    }).update(at as int, val),
                    ..pop_stack(s)
                }));
            },
            _ => {},
        }
        Ok(())
    }

    /// The balance recorded for `key`, zero when absent.
    fn balance_of(&self, key: &Vec<u8>) -> (b: u64)
        ensures
            b == (if self.balances@.contains_key(key@) { self.balances@[key@] } else { 0 }),
    {
        match self.balances.get(key.as_slice()) {
            Some(v) => *v,
            None => 0,
        }
    }

    /// Storage, balances, hashing and logging.
    fn exec_world(&mut self, opcode: OpCode, Ghost(instr): Ghost<Instruction>) -> (r: Result<(), VmError>)
        requires
            old(self).pc < old(self).program@.len(),
            instr.opcode == opcode,
        ensures
            final(self).program == old(self).program,
            final(self).ctx == old(self).ctx,
            final(self).model() == spec_world(old(self).model(), old(self).ctx, instr).0,
            result_matches(r, spec_world(old(self).model(), old(self).ctx, instr).1),
    {
        let ghost s = self.model();
        match opcode {
            OpCode::SLoad => {
                let key = match self.pop() {
                    Ok(v) => v,
                    Err(e) => return Err(e),
                };
                let kb = u64_to_le_bytes(key);
                let val = match self.storage.get(kb.as_slice()) {
                    Some(v) => if v.len() >= 8 { word_of(v.as_slice()) } else { 0 },
                    None => 0,
                };
                self.push_value(val);
            },
            OpCode::SStore => {
                let val = match self.pop() {
                    Ok(v) => v,
                    Err(e) => return Err(e),
                };
                let key = match self.pop() {
                    Ok(v) => v,
                    Err(e) => return Err(e),
                };
                let ghost s3 = self.model();
                self.storage.insert(u64_to_le_bytes(key), u64_to_le_bytes(val));
                assert(self.model() =~= VmModel {
                    storage: s3.storage.insert(spec_u64_to_le_bytes(key), spec_u64_to_le_bytes(val)),
                    ..s3
                });
            },
            OpCode::Balance => {
                let v = match self.pop() {
                    Ok(v) => v,
                    Err(e) => return Err(e),
                };
                let addr = address_key(v);
                let bal = self.balance_of(&addr);
                self.push_value(bal);
            },
            OpCode::Transfer => {
                let amount = match self.pop() {
                    Ok(v) => v,
                    Err(e) => return Err(e),
                };
                let to_val = match self.pop() {
                    Ok(v) => v,
                    Err(e) => return Err(e),
                };
                let to = address_key(to_val);
                let me = vstd::slice::slice_to_vec(self.ctx.contract_address.as_slice());
                let mine = self.balance_of(&me);
                if mine < amount {
                    return Err(VmError::InsufficientBalance);
                }
                let ghost s3 = self.model();
                self.balances.insert(me, mine - amount);
                let theirs = self.balance_of(&to);
                self.balances.insert(to, theirs.wrapping_add(amount));
                assert(self.model() =~= VmModel {
                    balances: s.balances.insert(old(self).ctx.contract_address@, (mine - amount) as u64).insert(
                        address_of_word(to_val),
                        theirs.wrapping_add(amount),
                    ),
                    ..s3
                });
                self.push_value(1);
            },
            OpCode::Hash => {
                let v = match self.pop() {
                    Ok(v) => v,
                    Err(e) => return Err(e),
                };
                let bytes = u64_to_le_bytes(v);
                let h = hash_sha256(bytes.as_slice());
                let w = word_of(h.as_slice());
                self.push_value(w);
            },
            OpCode::Log => {
                let count = match self.pop() {
                    Ok(v) => v,
                    Err(e) => return Err(e),
                } as usize;
                let ghost rest = self.stack@;
                let mut topics: Vec<u64> = Vec::new();
                let mut k: usize = 0;
                while k < count
                    invariant
                        k <= count,
                        k <= rest.len(),
                        s == old(self).model(),
                        s.stack.len() > 0,
                        rest == s.stack.drop_last(),
                        count == s.stack.last() as usize,
                        old(self).pc < old(self).program@.len(),
                        instr.opcode == opcode,
                        opcode == OpCode::Log,
                        self.program == old(self).program,
                        self.ctx == old(self).ctx,
                        self.model() == (VmModel { stack: rest.subrange(0, rest.len() - k), ..pop_stack(s) }),
                        topics@ == rest.subrange(rest.len() - k, rest.len() as int).reverse(),
                    decreases count - k,
                {
                    match self.stack.pop() {
                        Some(t) => {
                            let ghost before = topics@;
                            topics.push(t);
                            k += 1;
                            assert(topics@ =~= rest.subrange(rest.len() - k, rest.len() as int).reverse());
                            assert(self.model() =~= VmModel { stack: rest.subrange(0, rest.len() - k), ..pop_stack(s) });
                        },
                        None => {
                            assert(self.model() =~= VmModel { stack: Seq::empty(), ..s });
                            return Err(VmError::StackUnderflow);
                        },
                    }
                }
                let data = match self.pop() {
                    Ok(v) => v,
                    Err(e) => {
                        assert(self.model() =~= VmModel { stack: rest.subrange(0, rest.len() - count), ..s });
                        return Err(e);
                    },
                };
                let ghost before_logs = self.model();
                self.logs.push(LogEntry { topics, data });
                assert(self.model() =~= VmModel {
                    stack: rest.subrange(0, rest.len() - count).drop_last(),
                    logs: s.logs.push((rest.subrange(rest.len() - count, rest.len() as int).reverse(), data)),
                    ..s
                });
            },
            _ => {
                return Ok(());
            },
        }
        self.next();
        Ok(())
    }

    /// Execute a single instruction.
    fn step(&mut self) -> (r: Result<(), VmError>)
        ensures
            final(self).program == old(self).program,
            final(self).ctx == old(self).ctx,
            final(self).model() == spec_step(old(self).program@, old(self).ctx, old(self).model()).0,
            result_matches(r, spec_step(old(self).program@, old(self).ctx, old(self).model()).1),
    {
        let ghost s = self.model();
        if self.pc >= self.program.len() {
            self.halted = true;
            assert(self.model() =~= VmModel { halted: true, ..s });
            return Ok(());
        }
        let opcode = self.program[self.pc].opcode;
        let operand = self.program[self.pc].operand;
        let data_len = self.program[self.pc].data.len();
        let ghost instr = self.program@[self.pc as int];
        match self.gas.consume_opcode(opcode) {
            Ok(()) => {},
            Err(GasError::OutOfGas { limit, used }) => {
                assert(self.model() =~= VmModel { gas: GasMeter { gas_used: used, ..s.gas }, ..s });
                return Err(VmError::OutOfGas(out_of_gas_message(limit, used)));
            },
        }
        let ghost charged = self.model();
        assert(charged =~= VmModel {
            gas: GasMeter { gas_used: saturating_sum(s.gas.gas_used, spec_gas_cost(opcode)), ..s.gas },
            ..s
        });
        match opcode {
            OpCode::Add | OpCode::Sub | OpCode::Mul | OpCode::Div | OpCode::Mod | OpCode::Eq
            | OpCode::Neq | OpCode::Lt | OpCode::Gt | OpCode::Lte | OpCode::Gte | OpCode::And
            | OpCode::Or => self.exec_binary(opcode),
            OpCode::Push | OpCode::Pop | OpCode::Dup | OpCode::Swap | OpCode::Not | OpCode::Caller
            | OpCode::Timestamp | OpCode::BlockHeight | OpCode::SelfAddress
            | OpCode::PushBytes => self.exec_simple(opcode, operand, data_len, Ghost(instr)),
            OpCode::Jump | OpCode::JumpIf | OpCode::Call | OpCode::Return | OpCode::Halt
            | OpCode::Revert | OpCode::Require => self.exec_control(opcode, operand, Ghost(instr)),
            OpCode::LoadLocal | OpCode::StoreLocal => self.exec_locals(opcode, operand, Ghost(instr)),
            OpCode::SLoad | OpCode::SStore | OpCode::Balance | OpCode::Transfer | OpCode::Hash
            | OpCode::Log => self.exec_world(opcode, Ghost(instr)),
            OpCode::MLoad | OpCode::MStore | OpCode::Keccak256
            | OpCode::VerifySig => Err(VmError::InvalidInstruction(self.pc)),
        }
    }

    /// Run the VM until it halts, reverts, leaves the program or faults.
    ///
    /// Running out of gas reverts every state change of the run: the
    /// storage, logs and balances are put back as they were when the run
    /// started. The run must end: below the largest gas limit it always
    /// does; at that limit the meter saturates, so the program must stop by
    /// itself.
    pub fn execute(&mut self) -> (r: Result<VmResult, VmError>)
        requires
            run_ends(old(self).program_view(), old(self).context(), old(self).model()),
        ensures
            final(self).program_view() == old(self).program_view(),
            final(self).context() == old(self).context(),
            final(self).model() == settled(
                old(self).model(),
                run_outcome(old(self).program_view(), old(self).context(), old(self).model()),
            ),
            match r {
                Ok(res) => run_outcome(old(self).program_view(), old(self).context(), old(self).model()).1 is None
                    && reports(res, final(self).model()),
                Err(e) => run_outcome(old(self).program_view(), old(self).context(), old(self).model()).1 matches Some(f)
                    && error_matches(e, f),
            },
            r matches Err(VmError::OutOfGas(_)) ==> final(self).model().storage == old(self).model().storage
                && final(self).model().logs == old(self).model().logs
                && final(self).model().balances == old(self).model().balances,
    {
        let saved_storage = self.storage.duplicate();
        let saved_logs = copy_logs(&self.logs);
        let saved_balances = self.balances.duplicate();
        let r = self.run_to_end();
        match r {
            Err(VmError::OutOfGas(msg)) => {
                self.storage = saved_storage;
                self.logs = saved_logs;
                self.balances = saved_balances;
                Err(VmError::OutOfGas(msg))
            },
            other => other,
        }
    }

    /// Run until the machine halts, reverts, leaves the program or faults,
    /// keeping whatever state the run reached.
    fn run_to_end(&mut self) -> (r: Result<VmResult, VmError>)
        requires
            run_ends(old(self).program_view(), old(self).context(), old(self).model()),
        ensures
            final(self).program_view() == old(self).program_view(),
            final(self).context() == old(self).context(),
            final(self).model() == run_outcome(old(self).program_view(), old(self).context(), old(self).model()).0,
            match r {
                Ok(res) => run_outcome(old(self).program_view(), old(self).context(), old(self).model()).1 is None
                    && reports(res, final(self).model()),
                Err(e) => run_outcome(old(self).program_view(), old(self).context(), old(self).model()).1 matches Some(f)
                    && error_matches(e, f),
            },
    {
        let ghost prog = self.program@;
        let ghost ctx = self.ctx;
        let ghost start = self.model();
        if self.gas.gas_limit < u64::MAX {
            while !self.halted && !self.reverted && self.pc < self.program.len()
                invariant
                    self.program@ == prog,
                    self.ctx == ctx,
                    prog == old(self).program@,
                    ctx == old(self).ctx,
                    start == old(self).model(),
                    self.gas.gas_limit == start.gas.gas_limit,
                    start.gas.gas_limit < u64::MAX,
                    spec_run(prog, ctx, self.model()) == spec_run(prog, ctx, start),
                decreases
                    (if self.gas.gas_used <= self.gas.gas_limit { self.gas.gas_limit - self.gas.gas_used } else { 0 }) as nat,
                    (if running(prog, self.model()) { 1int } else { 0int }),
            {
                let ghost before = self.model();
                let r = self.step();
                match r {
                    Ok(()) => {
                        proof { lemma_step_progress(prog, ctx, before); }
                    },
                    Err(e) => {
                        return Err(e);
                    },
                }
            }
        } else {
            let ghost n: nat = choose|n: nat| stops_within(prog, ctx, start, n);
            let ghost mut m: nat = n;
            while !self.halted && !self.reverted && self.pc < self.program.len()
                invariant
                    self.program@ == prog,
                    self.ctx == ctx,
                    prog == old(self).program@,
                    ctx == old(self).ctx,
                    start == old(self).model(),
                    start.gas.gas_limit == u64::MAX,
                    n == choose|k: nat| stops_within(prog, ctx, start, k),
                    stops_within(prog, ctx, start, n),
                    stops_within(prog, ctx, self.model(), m),
                    run_steps(prog, ctx, self.model(), m) == run_steps(prog, ctx, start, n),
                decreases m,
            {
                let ghost before = self.model();
                assert(m > 0);
                let r = self.step();
                match r {
                    Ok(()) => {
                        proof { m = (m - 1) as nat; }
                    },
                    Err(e) => {
                        assert(run_steps(prog, ctx, before, m) == spec_step(prog, ctx, before));
                        return Err(e);
                    },
                }
            }
        }
        Ok(self.finish())
    }

    /// The result of a machine that has stopped.
    fn finish(&self) -> (res: VmResult)
        ensures
            reports(res, self.model()),
    {
        let storage = self.storage.duplicate();
        let logs = copy_logs(&self.logs);
        let revert_reason = match &self.revert_reason {
            Some(msg) => Some(msg.clone()),
            None => None,
        };
        VmResult {
            gas_used: self.gas.used(),
            return_value: self.return_value,
            reverted: self.reverted,
            revert_reason,
            logs,
            storage,
        }
    }
} // impl

} // verus!

verus! {

/// Law: after `SStore` writes `value` under `key`, an `SLoad` of the same key
/// pushes `value`.
pub proof fn lemma_store_then_load(s: VmModel, ctx: ExecutionContext, store: Instruction, load: Instruction, key: u64, value: u64)
    requires
        store.opcode == OpCode::SStore,
        load.opcode == OpCode::SLoad,
        s.stack.len() >= 2,
        s.stack[s.stack.len() - 2] == key,
        s.stack.last() == value,
    ensures
        spec_world(s, ctx, store).1 is None,
        spec_world(push(spec_world(s, ctx, store).0, key), ctx, load).1 is None,
        spec_world(push(spec_world(s, ctx, store).0, key), ctx, load).0.stack.last() == value,
{
    vstd::bytes::lemma_auto_spec_u64_to_from_le_bytes();
    let b = spec_u64_to_le_bytes(value);
    assert(b.subrange(0, 8) =~= b);
}

} // verus!
