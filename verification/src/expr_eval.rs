//! What the machine computes when it runs the code that the compiler emits:
//! the value of an expression made of literals, local variables and
//! operators, and the branch an `if` statement takes on such a condition.

use vstd::prelude::*;
use crate::ast::{BinaryOperator, ExprV, StmtV, UnaryOperator};
use crate::codegen::{binary_opcode, c_expr, c_stmt, c_stmts, string_word, CompileErrV, Scope};
use crate::gas::{saturating_sum, spec_gas_cost, GasMeter};
use crate::opcode::{Instruction, InstructionView, OpCode};
use crate::vm::{
    frame_base, lemma_binary_step, ok, running, run_steps, spec_binary_value, spec_step,
    ExecutionContext, VmModel,
};

verus! {

/// An expression built from literals, the local variables in `locals` and
/// the operators that cannot fault: every binary operator but division and
/// remainder, and both unary ones.
pub open spec fn pure_expr(locals: Map<Seq<char>, usize>, e: ExprV) -> bool
    decreases e,
{
    match e {
        ExprV::IntLiteral(_) => true,
        ExprV::BoolLiteral(_) => true,
        ExprV::StringLiteral(_) => true,
        ExprV::Variable(name) => locals.contains_key(name),
        ExprV::BinaryOp(l, op, r) => op != BinaryOperator::Div && op != BinaryOperator::Mod
            && pure_expr(locals, *l) && pure_expr(locals, *r),
        ExprV::UnaryOp(_, x) => pure_expr(locals, *x),
        _ => false,
    }
}

/// What a source binary operator means on two words, stated on the
/// operands themselves: wrapping `+`, `-`, `*`, truncating `/` and `%`, and 1
/// or 0 for whether a comparison or a logical connective holds.
pub open spec fn operator_value(op: BinaryOperator, a: u64, b: u64) -> u64 {
    match op {
        BinaryOperator::Add => ((a + b) % 0x1_0000_0000_0000_0000) as u64,
        BinaryOperator::Sub => ((a - b + 0x1_0000_0000_0000_0000) % 0x1_0000_0000_0000_0000) as u64,
        BinaryOperator::Mul => ((a * b) % 0x1_0000_0000_0000_0000) as u64,
        BinaryOperator::Div => if b == 0 { 0 } else { a / b },
        BinaryOperator::Mod => if b == 0 { 0 } else { a % b },
        BinaryOperator::Eq => if a == b { 1 } else { 0 },
        BinaryOperator::Neq => if a != b { 1 } else { 0 },
        BinaryOperator::Lt => if a < b { 1 } else { 0 },
        BinaryOperator::Gt => if a > b { 1 } else { 0 },
        BinaryOperator::Lte => if a <= b { 1 } else { 0 },
        BinaryOperator::Gte => if a >= b { 1 } else { 0 },
        BinaryOperator::And => if a != 0 && b != 0 { 1 } else { 0 },
        BinaryOperator::Or => if a != 0 || b != 0 { 1 } else { 0 },
    }
}

/// Law: each source binary operator compiles to the opcode of the same
/// meaning: division and remainder to `Div` and `Mod`, and every other
/// operator to an opcode that, on operands `a` and `b`, leaves exactly what
/// the operator means on them.
pub proof fn lemma_operator_opcode(op: BinaryOperator, a: u64, b: u64)
    ensures
        op == BinaryOperator::Div ==> binary_opcode(op) == OpCode::Div,
        op == BinaryOperator::Mod ==> binary_opcode(op) == OpCode::Mod,
        op != BinaryOperator::Div && op != BinaryOperator::Mod ==> crate::vm::is_binary_opcode(binary_opcode(op))
            && spec_binary_value(binary_opcode(op), a, b) == operator_value(op, a, b),
{
    match op {
        BinaryOperator::Add => {
            assert(a.wrapping_add(b) == ((a + b) % 0x1_0000_0000_0000_0000) as u64) by (bit_vector);
        },
        BinaryOperator::Sub => {
            assert(a.wrapping_sub(b) == ((a - b + 0x1_0000_0000_0000_0000) % 0x1_0000_0000_0000_0000) as u64) by (bit_vector);
        },
        BinaryOperator::Mul => {
            assert(a.wrapping_mul(b) == ((a * b) % 0x1_0000_0000_0000_0000) as u64) by (bit_vector);
        },
        _ => {},
    }
}

/// The word in local slot `idx` of the current frame (0 where the locals
/// do not reach that far).
pub open spec fn local_word(s: VmModel, idx: usize) -> u64 {
    let at = frame_base(s) + idx;
    if at < s.locals.len() { s.locals[at] } else { 0 }
}

/// Every local slot in `locals` lies within the machine's address range
/// from the current frame's base.
pub open spec fn locals_addressable(s: VmModel, locals: Map<Seq<char>, usize>) -> bool {
    forall|n: Seq<char>| #[trigger] locals.contains_key(n) ==> frame_base(s) + locals[n] <= usize::MAX
}

/// The value of such an expression in state `s`, in the machine's wrapping
/// arithmetic: `true` is 1, `false` is 0, a string is its word, a variable
/// is the word in its local slot, comparisons and logic give 1 or 0, `!x`
/// is 1 exactly when `x` is 0, and `-x` is `0 - x`.
pub open spec fn pure_value(s: VmModel, locals: Map<Seq<char>, usize>, e: ExprV) -> u64
    decreases e,
{
    match e {
        ExprV::IntLiteral(v) => v,
        ExprV::BoolLiteral(b) => if b { 1 } else { 0 },
        ExprV::StringLiteral(st) => string_word(st),
        ExprV::Variable(name) => local_word(s, locals[name]),
        ExprV::BinaryOp(l, op, r) => operator_value(op, pure_value(s, locals, *l), pure_value(s, locals, *r)),
        ExprV::UnaryOp(UnaryOperator::Not, x) => if pure_value(s, locals, *x) == 0 { 1 } else { 0 },
        ExprV::UnaryOp(UnaryOperator::Negate, x) => spec_binary_value(OpCode::Sub, 0, pure_value(s, locals, *x)),
        _ => 0,
    }
}

/// The value of an expression depends on the locals and frames alone.
proof fn lemma_pure_value_frame(s: VmModel, t: VmModel, locals: Map<Seq<char>, usize>, e: ExprV)
    requires
        s.locals == t.locals,
        s.frames == t.frames,
    ensures
        pure_value(s, locals, e) == pure_value(t, locals, e),
    decreases e,
{
    match e {
        ExprV::BinaryOp(l, _, r) => {
            lemma_pure_value_frame(s, t, locals, *l);
            lemma_pure_value_frame(s, t, locals, *r);
        },
        ExprV::UnaryOp(_, x) => {
            lemma_pure_value_frame(s, t, locals, *x);
        },
        _ => {},
    }
}

/// The gas that running `code` once through costs.
pub open spec fn code_cost(code: Seq<InstructionView>) -> nat
    decreases code.len(),
{
    if code.len() == 0 {
        0
    } else {
        (code_cost(code.drop_last()) + spec_gas_cost(code.last().opcode)) as nat
    }
}

/// `code` stands in `prog` from instruction `at` on.
pub open spec fn placed(prog: Seq<Instruction>, code: Seq<InstructionView>, at: int) -> bool {
    &&& 0 <= at
    &&& at + code.len() <= prog.len()
    &&& forall|k: int| 0 <= k < code.len() ==> #[trigger] prog[at + k]@ == code[k]
}

/// The state after `n` instructions that pushed `v` and cost `cost`.
pub open spec fn pushed(s: VmModel, n: nat, v: u64, cost: nat) -> VmModel {
    VmModel {
        pc: (s.pc + n) as usize,
        stack: s.stack.push(v),
        gas: GasMeter { gas_used: (s.gas.gas_used + cost) as u64, ..s.gas },
        ..s
    }
}

proof fn lemma_code_cost_add(a: Seq<InstructionView>, b: Seq<InstructionView>)
    ensures
        code_cost(a + b) == code_cost(a) + code_cost(b),
    decreases b.len(),
{
    if b.len() == 0 {
        assert(a + b =~= a);
    } else {
        lemma_code_cost_add(a, b.drop_last());
        assert((a + b).drop_last() =~= a + b.drop_last());
        assert((a + b).last() == b.last());
    }
}

proof fn lemma_placed_split(prog: Seq<Instruction>, a: Seq<InstructionView>, b: Seq<InstructionView>, at: int)
    requires
        placed(prog, a + b, at),
    ensures
        placed(prog, a, at),
        placed(prog, b, at + a.len()),
{
    assert forall|k: int| 0 <= k < a.len() implies #[trigger] prog[at + k]@ == a[k] by {
        assert((a + b)[k] == a[k]);
    }
    assert forall|k: int| 0 <= k < b.len() implies #[trigger] prog[at + a.len() + k]@ == b[k] by {
        assert((a + b)[a.len() + k] == b[k]);
        assert(prog[at + (a.len() + k)]@ == (a + b)[a.len() + k]);
    }
}

/// Running `n + m` steps is running `n`, then `m` more from where those
/// stopped, unless the first `n` faulted.
proof fn lemma_run_steps_add(prog: Seq<Instruction>, ctx: ExecutionContext, s: VmModel, n: nat, m: nat)
    ensures
        run_steps(prog, ctx, s, n + m) == (if run_steps(prog, ctx, s, n).1 is Some {
            run_steps(prog, ctx, s, n)
        } else {
            run_steps(prog, ctx, run_steps(prog, ctx, s, n).0, m)
        }),
    decreases n,
{
    if running(prog, s) && n > 0 {
        let next = spec_step(prog, ctx, s);
        if next.1 is None {
            lemma_run_steps_add(prog, ctx, next.0, (n - 1) as nat, m);
            assert((n + m - 1) as nat == (n - 1) as nat + m);
        }
    }
}

/// One step of a running machine.
proof fn lemma_run_one(prog: Seq<Instruction>, ctx: ExecutionContext, s: VmModel)
    requires
        running(prog, s),
    ensures
        run_steps(prog, ctx, s, 1) == spec_step(prog, ctx, s),
{
    let next = spec_step(prog, ctx, s);
    if next.1 is None {
        assert(run_steps(prog, ctx, next.0, 0) == ok(next.0));
    }
}

/// A step on an instruction that pushes a constant.
proof fn lemma_push_step(prog: Seq<Instruction>, ctx: ExecutionContext, s: VmModel, v: u64)
    requires
        running(prog, s),
        prog[s.pc as int].opcode == OpCode::Push,
        prog[s.pc as int].operand == v,
        s.gas.gas_used + spec_gas_cost(OpCode::Push) <= s.gas.gas_limit,
    ensures
        run_steps(prog, ctx, s, 1) == ok(pushed(s, 1, v, spec_gas_cost(OpCode::Push) as nat)),
{
    lemma_run_one(prog, ctx, s);
    assert(saturating_sum(s.gas.gas_used, spec_gas_cost(OpCode::Push)) == s.gas.gas_used + spec_gas_cost(OpCode::Push));
    assert(spec_step(prog, ctx, s).0 =~= pushed(s, 1, v, spec_gas_cost(OpCode::Push) as nat));
}

/// Running the code of a push of `v`.
proof fn lemma_push_code(prog: Seq<Instruction>, ctx: ExecutionContext, s: VmModel, v: u64, code: Seq<InstructionView>)
    requires
        code == seq![crate::opcode::ins(OpCode::Push, v)],
        placed(prog, code, s.pc as int),
        !s.halted,
        !s.reverted,
        s.gas.gas_used + code_cost(code) <= s.gas.gas_limit,
    ensures
        run_steps(prog, ctx, s, code.len()) == ok(pushed(s, code.len(), v, code_cost(code))),
{
    reveal_with_fuel(code_cost, 2);
    assert(prog[s.pc + 0]@ == code[0]);
    lemma_push_step(prog, ctx, s, v);
}

/// Running the code of a load of local slot `idx`.
proof fn lemma_load_code(prog: Seq<Instruction>, ctx: ExecutionContext, s: VmModel, idx: usize, code: Seq<InstructionView>)
    requires
        code == seq![crate::opcode::ins(OpCode::LoadLocal, idx as u64)],
        placed(prog, code, s.pc as int),
        frame_base(s) + idx <= usize::MAX,
        !s.halted,
        !s.reverted,
        s.gas.gas_used + code_cost(code) <= s.gas.gas_limit,
    ensures
        run_steps(prog, ctx, s, code.len()) == ok(pushed(s, code.len(), local_word(s, idx), code_cost(code))),
{
    reveal_with_fuel(code_cost, 2);
    assert(prog[s.pc + 0]@ == code[0]);
    lemma_run_one(prog, ctx, s);
    let c = spec_gas_cost(OpCode::LoadLocal);
    assert(saturating_sum(s.gas.gas_used, c) == s.gas.gas_used + c);
    assert((idx as u64) as usize == idx);
    assert(spec_step(prog, ctx, s).0 =~= pushed(s, 1, local_word(s, idx), c as nat));
}

/// Running the code of both operands and then the operator.
proof fn lemma_binary_code(
    prog: Seq<Instruction>,
    ctx: ExecutionContext,
    s: VmModel,
    cl: Seq<InstructionView>,
    cr: Seq<InstructionView>,
    op: OpCode,
    vl: u64,
    vr: u64,
)
    requires
        crate::vm::is_binary_opcode(op),
        placed(prog, cl + cr + seq![crate::opcode::ins(op, 0)], s.pc as int),
        prog.len() <= usize::MAX,
        s.gas.gas_used + code_cost(cl + cr + seq![crate::opcode::ins(op, 0)]) <= s.gas.gas_limit,
        run_steps(prog, ctx, s, cl.len()) == ok(pushed(s, cl.len(), vl, code_cost(cl))),
        run_steps(prog, ctx, pushed(s, cl.len(), vl, code_cost(cl)), cr.len()) == ok(
            pushed(pushed(s, cl.len(), vl, code_cost(cl)), cr.len(), vr, code_cost(cr)),
        ),
        !s.halted,
        !s.reverted,
    ensures
        run_steps(prog, ctx, s, (cl + cr + seq![crate::opcode::ins(op, 0)]).len()) == ok(
            pushed(s, (cl + cr + seq![crate::opcode::ins(op, 0)]).len(), spec_binary_value(op, vl, vr),
                code_cost(cl + cr + seq![crate::opcode::ins(op, 0)])),
        ),
{
    let tail = seq![crate::opcode::ins(op, 0)];
    let code = cl + cr + tail;
    reveal_with_fuel(code_cost, 2);
    lemma_code_cost_add(cl + cr, tail);
    lemma_code_cost_add(cl, cr);
    lemma_placed_split(prog, cl + cr, tail, s.pc as int);
    let s1 = pushed(s, cl.len(), vl, code_cost(cl));
    let s2 = pushed(s1, cr.len(), vr, code_cost(cr));
    lemma_run_steps_add(prog, ctx, s, cl.len(), cr.len());
    lemma_run_steps_add(prog, ctx, s, cl.len() + cr.len(), 1);
    let at = s.pc + cl.len() + cr.len();
    assert(prog[at]@ == tail[0]) by {
        assert(prog[(s.pc + (cl + cr).len()) + 0]@ == tail[0]);
    }
    assert(s2.pc == at);
    lemma_run_one(prog, ctx, s2);
    lemma_binary_step(prog, ctx, s2, s.stack, vl, vr);
    assert(spec_step(prog, ctx, s2).0 =~= pushed(s, code.len(), spec_binary_value(op, vl, vr), code_cost(code)));
}

/// Running the code of the operand and then `Not`.
proof fn lemma_not_code(prog: Seq<Instruction>, ctx: ExecutionContext, s: VmModel, cx: Seq<InstructionView>, v: u64)
    requires
        placed(prog, cx + seq![crate::opcode::ins(OpCode::Not, 0)], s.pc as int),
        prog.len() <= usize::MAX,
        s.gas.gas_used + code_cost(cx + seq![crate::opcode::ins(OpCode::Not, 0)]) <= s.gas.gas_limit,
        run_steps(prog, ctx, s, cx.len()) == ok(pushed(s, cx.len(), v, code_cost(cx))),
        !s.halted,
        !s.reverted,
    ensures
        run_steps(prog, ctx, s, (cx + seq![crate::opcode::ins(OpCode::Not, 0)]).len()) == ok(
            pushed(s, (cx + seq![crate::opcode::ins(OpCode::Not, 0)]).len(), if v == 0 { 1 } else { 0 },
                code_cost(cx + seq![crate::opcode::ins(OpCode::Not, 0)])),
        ),
{
    let tail = seq![crate::opcode::ins(OpCode::Not, 0)];
    let code = cx + tail;
    reveal_with_fuel(code_cost, 2);
    lemma_placed_split(prog, cx, tail, s.pc as int);
    lemma_code_cost_add(cx, tail);
    let s1 = pushed(s, cx.len(), v, code_cost(cx));
    lemma_run_steps_add(prog, ctx, s, cx.len(), 1);
    assert(prog[s1.pc as int]@ == tail[0]) by {
        assert(prog[(s.pc + cx.len()) + 0]@ == tail[0]);
    }
    lemma_run_one(prog, ctx, s1);
    assert(saturating_sum(s1.gas.gas_used, spec_gas_cost(OpCode::Not)) == s1.gas.gas_used + spec_gas_cost(OpCode::Not));
    assert(s1.stack.drop_last() =~= s.stack);
    assert(spec_step(prog, ctx, s1).0 =~= pushed(s, code.len(), if v == 0 { 1 } else { 0 }, code_cost(code)));
}

/// Running the code of the operand and then `Push 0, Swap, Sub`.
proof fn lemma_negate_code(prog: Seq<Instruction>, ctx: ExecutionContext, s: VmModel, cx: Seq<InstructionView>, v: u64)
    requires
        placed(prog, cx + negate_tail(), s.pc as int),
        prog.len() <= usize::MAX,
        s.gas.gas_used + code_cost(cx + negate_tail()) <= s.gas.gas_limit,
        run_steps(prog, ctx, s, cx.len()) == ok(pushed(s, cx.len(), v, code_cost(cx))),
        !s.halted,
        !s.reverted,
    ensures
        run_steps(prog, ctx, s, (cx + negate_tail()).len()) == ok(
            pushed(s, (cx + negate_tail()).len(), spec_binary_value(OpCode::Sub, 0, v), code_cost(cx + negate_tail())),
        ),
{
    let t0 = crate::opcode::ins(OpCode::Push, 0);
    let t1 = crate::opcode::ins(OpCode::Swap, 0);
    let t2 = crate::opcode::ins(OpCode::Sub, 0);
    let tail = negate_tail();
    let code = cx + tail;
    reveal_with_fuel(code_cost, 4);
    lemma_placed_split(prog, cx, tail, s.pc as int);
    lemma_code_cost_add(cx, tail);
    let s1 = pushed(s, cx.len(), v, code_cost(cx));
    let at = s.pc + cx.len();
    assert(prog[at]@ == t0 && prog[at + 1]@ == t1 && prog[at + 2]@ == t2) by {
        assert(prog[at + 0]@ == tail[0]);
        assert(prog[at + 1]@ == tail[1]);
        assert(prog[at + 2]@ == tail[2]);
    }
    lemma_push_step(prog, ctx, s1, 0);
    let s2 = pushed(s1, 1, 0, spec_gas_cost(OpCode::Push) as nat);
    lemma_run_one(prog, ctx, s2);
    assert(saturating_sum(s2.gas.gas_used, spec_gas_cost(OpCode::Swap)) == s2.gas.gas_used + spec_gas_cost(OpCode::Swap));
    let s3 = VmModel {
        pc: (s2.pc + 1) as usize,
        stack: s.stack.push(0).push(v),
        gas: GasMeter { gas_used: (s2.gas.gas_used + spec_gas_cost(OpCode::Swap)) as u64, ..s2.gas },
        ..s2
    };
    assert(spec_step(prog, ctx, s2).0 =~= s3);
    lemma_run_one(prog, ctx, s3);
    lemma_binary_step(prog, ctx, s3, s.stack, 0, v);
    assert(spec_step(prog, ctx, s3).0 =~= pushed(s, code.len(), spec_binary_value(OpCode::Sub, 0, v), code_cost(code)));
    lemma_run_steps_add(prog, ctx, s, cx.len(), 3);
    lemma_run_steps_add(prog, ctx, s1, 1, 2);
    lemma_run_steps_add(prog, ctx, s2, 1, 1);
}

/// The code that negates the value on top of the stack.
pub open spec fn negate_tail() -> Seq<InstructionView> {
    seq![
        crate::opcode::ins(OpCode::Push, 0),
        crate::opcode::ins(OpCode::Swap, 0),
        crate::opcode::ins(OpCode::Sub, 0),
    ]
}

/// Law: the code that the compiler emits for an expression of literals,
/// local variables and non-faulting operators, placed anywhere in a program
/// and run from its first instruction with gas enough to pay for it, runs
/// to its end without a fault and leaves exactly the expression's value on
/// top of the stack it found; it charges the code's gas and changes nothing
/// else.
pub proof fn lemma_expr_code_runs(
    prog: Seq<Instruction>,
    ctx: ExecutionContext,
    s: VmModel,
    locals: Map<Seq<char>, usize>,
    slots: Map<Seq<char>, u64>,
    e: ExprV,
    code: Seq<InstructionView>,
)
    requires
        pure_expr(locals, e),
        locals_addressable(s, locals),
        c_expr(locals, slots, e) == Ok::<Seq<InstructionView>, crate::codegen::CompileErrV>(code),
        placed(prog, code, s.pc as int),
        prog.len() <= usize::MAX,
        !s.halted,
        !s.reverted,
        s.gas.gas_used + code_cost(code) <= s.gas.gas_limit,
    ensures
        run_steps(prog, ctx, s, code.len()) == ok(pushed(s, code.len(), pure_value(s, locals, e), code_cost(code))),
    decreases e,
{
    match e {
        ExprV::IntLiteral(v) => {
            assert(code == seq![crate::opcode::ins(OpCode::Push, v)]) by { reveal(c_expr); }
            lemma_push_code(prog, ctx, s, v, code);
        },
        ExprV::BoolLiteral(b) => {
            assert(code == seq![crate::opcode::ins(OpCode::Push, if b { 1 } else { 0 })]) by { reveal(c_expr); }
            lemma_push_code(prog, ctx, s, if b { 1 } else { 0 }, code);
        },
        ExprV::StringLiteral(st) => {
            assert(code == seq![crate::opcode::ins(OpCode::Push, string_word(st))]) by { reveal(c_expr); }
            lemma_push_code(prog, ctx, s, string_word(st), code);
        },
        ExprV::Variable(name) => {
            let idx = locals[name];
            assert(code == seq![crate::opcode::ins(OpCode::LoadLocal, idx as u64)]) by { reveal(c_expr); }
            lemma_load_code(prog, ctx, s, idx, code);
        },
        ExprV::BinaryOp(l, op, r) => {
            let cl = c_expr(locals, slots, *l)->Ok_0;
            let cr = c_expr(locals, slots, *r)->Ok_0;
            let bop = binary_opcode(op);
            assert(c_expr(locals, slots, *l) is Ok && c_expr(locals, slots, *r) is Ok
                && code == cl + cr + seq![crate::opcode::ins(bop, 0)]) by { reveal(c_expr); }
            lemma_operator_opcode(op, 0, 0);
            let tail = seq![crate::opcode::ins(bop, 0)];
            lemma_placed_split(prog, cl + cr, tail, s.pc as int);
            lemma_placed_split(prog, cl, cr, s.pc as int);
            lemma_code_cost_add(cl + cr, tail);
            lemma_code_cost_add(cl, cr);
            lemma_expr_code_runs(prog, ctx, s, locals, slots, *l, cl);
            let s1 = pushed(s, cl.len(), pure_value(s, locals, *l), code_cost(cl));
            assert(frame_base(s1) == frame_base(s));
            lemma_expr_code_runs(prog, ctx, s1, locals, slots, *r, cr);
            lemma_pure_value_frame(s, s1, locals, *r);
            lemma_binary_code(prog, ctx, s, cl, cr, bop, pure_value(s, locals, *l), pure_value(s, locals, *r));
            lemma_operator_opcode(op, pure_value(s, locals, *l), pure_value(s, locals, *r));
        },
        ExprV::UnaryOp(op, x) => {
            let cx = c_expr(locals, slots, *x)->Ok_0;
            match op {
                UnaryOperator::Not => {
                    let tail = seq![crate::opcode::ins(OpCode::Not, 0)];
                    assert(c_expr(locals, slots, *x) is Ok && code == cx + tail) by { reveal(c_expr); }
                    lemma_placed_split(prog, cx, tail, s.pc as int);
                    lemma_code_cost_add(cx, tail);
                    lemma_expr_code_runs(prog, ctx, s, locals, slots, *x, cx);
                    lemma_not_code(prog, ctx, s, cx, pure_value(s, locals, *x));
                },
                UnaryOperator::Negate => {
                    assert(c_expr(locals, slots, *x) is Ok && code == cx + negate_tail()) by { reveal(c_expr); }
                    lemma_placed_split(prog, cx, negate_tail(), s.pc as int);
                    lemma_code_cost_add(cx, negate_tail());
                    lemma_expr_code_runs(prog, ctx, s, locals, slots, *x, cx);
                    lemma_negate_code(prog, ctx, s, cx, pure_value(s, locals, *x));
                },
            }
        },
        _ => {},
    }
}

/// Where the head of an `if` statement at `base` jumps when its condition
/// is false: past the `then` code and its closing jump to the `else` code,
/// or, without an `else`, past the `then` code.
pub open spec fn if_false_target(base: int, cc_len: nat, bc_len: nat, has_else: bool) -> int {
    base + cc_len + 2 + bc_len + if has_else { 1int } else { 0int }
}

/// Law: the code of an `if` statement whose condition is made of literals,
/// local variables and non-faulting operators, placed in a program at
/// `s.pc` and run from there with gas enough for the condition, `Not` and
/// `JumpIf`, evaluates the condition and consumes its value: after those
/// instructions the stack is as it was, and control stands at the first
/// instruction of the `then` code when the value is non-zero, and at the
/// `else` code (or past the statement, without one) when it is zero.
pub proof fn lemma_if_branches(
    prog: Seq<Instruction>,
    ctx: ExecutionContext,
    s: VmModel,
    sc: Scope,
    slots: Map<Seq<char>, u64>,
    cond: ExprV,
    body: Seq<StmtV>,
    else_body: Seq<StmtV>,
    code: Seq<InstructionView>,
    after: Scope,
)
    requires
        pure_expr(sc.locals, cond),
        locals_addressable(s, sc.locals),
        c_stmt(sc, slots, s.pc as int, StmtV::If(cond, body, else_body)) == Ok::<(Seq<InstructionView>, Scope), CompileErrV>((code, after)),
        placed(prog, code, s.pc as int),
        prog.len() <= usize::MAX,
        !s.halted,
        !s.reverted,
        s.gas.gas_used + code_cost(c_expr(sc.locals, slots, cond)->Ok_0) + spec_gas_cost(OpCode::Not)
            + spec_gas_cost(OpCode::JumpIf) <= s.gas.gas_limit,
    ensures
        ({
            let cc = c_expr(sc.locals, slots, cond)->Ok_0;
            let bc = c_stmts(sc, slots, s.pc + cc.len() + 2, body)->Ok_0.0;
            let v = pure_value(s, sc.locals, cond);
            let r = run_steps(prog, ctx, s, cc.len() + 2);
            &&& r.1 is None
            &&& r.0 == VmModel {
                pc: (if v != 0 { s.pc + cc.len() + 2 } else { if_false_target(s.pc as int, cc.len(), bc.len(), else_body.len() > 0) }) as usize,
                gas: GasMeter {
                    gas_used: (s.gas.gas_used + code_cost(cc) + spec_gas_cost(OpCode::Not) + spec_gas_cost(OpCode::JumpIf)) as u64,
                    ..s.gas
                },
                ..s
            }
        }),
{
    let base = s.pc as int;
    let cc = c_expr(sc.locals, slots, cond)->Ok_0;
    let body_base = base + cc.len() + 2;
    let bc = c_stmts(sc, slots, body_base, body)->Ok_0.0;
    let target = if_false_target(base, cc.len(), bc.len(), else_body.len() > 0);
    let not_i = crate::opcode::ins(OpCode::Not, 0);
    let jump_i = crate::opcode::ins(OpCode::JumpIf, target as u64);
    let head = cc + seq![not_i];
    assert(c_expr(sc.locals, slots, cond) is Ok && c_stmts(sc, slots, body_base, body) is Ok
        && code.len() >= cc.len() + 2 && target <= base + code.len()
        && code.subrange(0, cc.len() + 2int) == head + seq![jump_i]) by {
        reveal(c_stmt);
        if else_body.len() > 0 {
            let ec = c_stmts(c_stmts(sc, slots, body_base, body)->Ok_0.1, slots, body_base + bc.len() + 1, else_body)->Ok_0.0;
            assert(code == cc + seq![not_i, jump_i] + bc + seq![crate::opcode::ins(OpCode::Jump, (body_base + bc.len() + 1 + ec.len()) as u64)] + ec);
            assert(code.subrange(0, cc.len() + 2int) =~= head + seq![jump_i]);
        } else {
            assert(code == cc + seq![not_i, jump_i] + bc);
            assert(code.subrange(0, cc.len() + 2int) =~= head + seq![jump_i]);
        }
    }
    assert(placed(prog, head + seq![jump_i], base)) by {
        assert forall|k: int| 0 <= k < (head + seq![jump_i]).len() implies #[trigger] prog[base + k]@ == (head + seq![jump_i])[k] by {
            assert(code.subrange(0, cc.len() + 2int)[k] == code[k]);
        }
    }
    lemma_placed_split(prog, head, seq![jump_i], base);
    lemma_placed_split(prog, cc, seq![not_i], base);
    reveal_with_fuel(code_cost, 2);
    lemma_code_cost_add(cc, seq![not_i]);
    lemma_expr_code_runs(prog, ctx, s, sc.locals, slots, cond, cc);
    let v = pure_value(s, sc.locals, cond);
    lemma_not_code(prog, ctx, s, cc, v);
    let nv: u64 = if v == 0 { 1 } else { 0 };
    let s2 = pushed(s, head.len(), nv, code_cost(head));
    assert(prog[s2.pc as int]@ == jump_i) by {
        assert(prog[(base + head.len()) + 0]@ == seq![jump_i][0]);
    }
    lemma_run_one(prog, ctx, s2);
    let c = spec_gas_cost(OpCode::JumpIf);
    assert(saturating_sum(s2.gas.gas_used, c) == s2.gas.gas_used + c);
    assert(s2.stack.drop_last() =~= s.stack);
    assert((target as u64) as usize == target);
    let r = VmModel {
        pc: (if v != 0 { s.pc + cc.len() + 2 } else { target }) as usize,
        gas: GasMeter {
            gas_used: (s.gas.gas_used + code_cost(cc) + spec_gas_cost(OpCode::Not) + spec_gas_cost(OpCode::JumpIf)) as u64,
            ..s.gas
        },
        ..s
    };
    assert(spec_step(prog, ctx, s2).0 =~= r);
    assert(spec_step(prog, ctx, s2).1 is None);
    lemma_run_steps_add(prog, ctx, s, head.len(), 1);
}

} // verus!
