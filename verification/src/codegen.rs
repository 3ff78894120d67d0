//! What the ThunderScript compiler emits, as functions of the syntax tree and
//! the symbol tables: the instruction sequence of each expression, statement,
//! function and contract.

use vstd::prelude::*;
use crate::ast::{BinaryOperator, ContractV, DeclV, ExprV, FunctionV, StmtV, TargetV, UnaryOperator};
use crate::crypto::spec_sha256;
use crate::opcode::{ins, InstructionView, OpCode};
use crate::vm::word_of_bytes;

verus! {

/// Storage keys of map entries are `slot * MAP_SLOT_FACTOR + key`.
pub const MAP_SLOT_FACTOR: u64 = 1_000_000;

// ── Strings ────────────────────────────────────────────────────────────────

/// The UTF-8 encoding of one character.
pub open spec fn utf8_char(c: char) -> Seq<u8> {
    let v = c as u32;
    if v < 0x80 {
        seq![v as u8]
    } else if v < 0x800 {
        seq![(0xC0 | (v >> 6)) as u8, (0x80 | (v & 0x3F)) as u8]
    } else if v < 0x10000 {
        seq![(0xE0 | (v >> 12)) as u8, (0x80 | ((v >> 6) & 0x3F)) as u8, (0x80 | (v & 0x3F)) as u8]
    } else {
        seq![
            (0xF0 | (v >> 18)) as u8,
            (0x80 | ((v >> 12) & 0x3F)) as u8,
            (0x80 | ((v >> 6) & 0x3F)) as u8,
            (0x80 | (v & 0x3F)) as u8,
        ]
    }
}

/// The UTF-8 encoding of a text.
pub open spec fn spec_utf8(s: Seq<char>) -> Seq<u8>
    decreases s.len(),
{
    if s.len() == 0 {
        Seq::empty()
    } else {
        spec_utf8(s.drop_last()) + utf8_char(s.last())
    }
}

/// A string literal is represented by the first eight bytes (little endian)
/// of the SHA-256 digest of its UTF-8 encoding.
pub open spec fn string_word(s: Seq<char>) -> u64 {
    word_of_bytes(spec_sha256(spec_utf8(s)))
}

// ── Errors ─────────────────────────────────────────────────────────────────

/// The abstract value of a compile error.
pub ghost enum CompileErrV {
    UndefinedVariable(Seq<char>),
    UndefinedStateVar(Seq<char>),
    General(Seq<char>),
}

/// The message for expressions the code generator does not handle.
pub open spec fn struct_unsupported() -> Seq<char> {
    "struct expressions are not supported"@
}

/// The message when a function needs more local slots than a `usize` counts.
pub open spec fn too_many_locals() -> Seq<char> {
    "too many local variables"@
}

// ── Expressions ────────────────────────────────────────────────────────────

/// The opcode of a binary operator.
pub open spec fn binary_opcode(op: BinaryOperator) -> OpCode {
    match op {
        BinaryOperator::Add => OpCode::Add,
        BinaryOperator::Sub => OpCode::Sub,
        BinaryOperator::Mul => OpCode::Mul,
        BinaryOperator::Div => OpCode::Div,
        BinaryOperator::Mod => OpCode::Mod,
        BinaryOperator::Eq => OpCode::Eq,
        BinaryOperator::Neq => OpCode::Neq,
        BinaryOperator::Lt => OpCode::Lt,
        BinaryOperator::Gt => OpCode::Gt,
        BinaryOperator::Lte => OpCode::Lte,
        BinaryOperator::Gte => OpCode::Gte,
        BinaryOperator::And => OpCode::And,
        BinaryOperator::Or => OpCode::Or,
    }
}

/// The code that leaves the storage base of map `slot` on the stack.
pub open spec fn map_base(slot: u64) -> Seq<InstructionView> {
    seq![ins(OpCode::Push, slot), ins(OpCode::Push, MAP_SLOT_FACTOR), ins(OpCode::Mul, 0)]
}

/// The built-in functions and the opcode each compiles to.
pub open spec fn builtin_opcode(name: Seq<char>) -> Option<OpCode> {
    if name == "caller"@ {
        Some(OpCode::Caller)
    } else if name == "balance"@ {
        Some(OpCode::Balance)
    } else if name == "timestamp"@ {
        Some(OpCode::Timestamp)
    } else if name == "block_height"@ {
        Some(OpCode::BlockHeight)
    } else if name == "self_address"@ {
        Some(OpCode::SelfAddress)
    } else if name == "hash"@ {
        Some(OpCode::Hash)
    } else {
        None
    }
}

/// The built-ins that take their first argument from the stack.
pub open spec fn builtin_takes_argument(op: OpCode) -> bool {
    op == OpCode::Balance || op == OpCode::Hash
}

/// Two code results joined, the first error winning.
pub open spec fn join_code(a: Result<Seq<InstructionView>, CompileErrV>, b: Result<Seq<InstructionView>, CompileErrV>) -> Result<Seq<InstructionView>, CompileErrV> {
    match a {
        Err(e) => Err(e),
        Ok(x) => match b {
            Err(e) => Err(e),
            Ok(y) => Ok(x + y),
        },
    }
}

/// The code of an expression: it leaves the expression's value on the stack.
#[verifier::opaque]
pub open spec fn c_expr(locals: Map<Seq<char>, usize>, slots: Map<Seq<char>, u64>, e: ExprV) -> Result<Seq<InstructionView>, CompileErrV>
    decreases e, 0int,
{
    match e {
        ExprV::IntLiteral(v) => Ok(seq![ins(OpCode::Push, v)]),
        ExprV::BoolLiteral(b) => Ok(seq![ins(OpCode::Push, if b { 1 } else { 0 })]),
        ExprV::StringLiteral(s) => Ok(seq![ins(OpCode::Push, string_word(s))]),
        ExprV::Variable(name) => if locals.contains_key(name) {
            Ok(seq![ins(OpCode::LoadLocal, locals[name] as u64)])
        } else {
            Err(CompileErrV::UndefinedVariable(name))
        },
        ExprV::StateAccess(field) => if slots.contains_key(field) {
            Ok(seq![ins(OpCode::Push, slots[field]), ins(OpCode::SLoad, 0)])
        } else {
            Err(CompileErrV::UndefinedStateVar(field))
        },
        ExprV::StateMapAccess(field, key) => if slots.contains_key(field) {
            join_code(
                join_code(Ok(map_base(slots[field])), c_expr(locals, slots, *key)),
                Ok(seq![ins(OpCode::Add, 0), ins(OpCode::SLoad, 0)]),
            )
        } else {
            Err(CompileErrV::UndefinedStateVar(field))
        },
        ExprV::BinaryOp(left, op, right) => join_code(
            join_code(c_expr(locals, slots, *left), c_expr(locals, slots, *right)),
            Ok(seq![ins(binary_opcode(op), 0)]),
        ),
        ExprV::UnaryOp(op, operand) => join_code(
            c_expr(locals, slots, *operand),
            Ok(
                match op {
                    UnaryOperator::Not => seq![ins(OpCode::Not, 0)],
                    UnaryOperator::Negate => seq![ins(OpCode::Push, 0), ins(OpCode::Swap, 0), ins(OpCode::Sub, 0)],
                },
            ),
        ),
        ExprV::FunctionCall(name, args) => match builtin_opcode(name) {
            Some(op) => if builtin_takes_argument(op) && args.len() > 0 {
                join_code(c_expr(locals, slots, args[0]), Ok(seq![ins(op, 0)]))
            } else {
                Ok(seq![ins(op, 0)])
            },
            None => join_code(c_args_rev(locals, slots, args), Ok(seq![ins(OpCode::Call, 0)])),
        },
        ExprV::StructInit(..) => Err(CompileErrV::General(struct_unsupported())),
        ExprV::StructFieldAccess(..) => Err(CompileErrV::General(struct_unsupported())),
    }
}

/// The code of call arguments, pushed last to first.
#[verifier::opaque]
pub open spec fn c_args_rev(locals: Map<Seq<char>, usize>, slots: Map<Seq<char>, u64>, args: Seq<ExprV>) -> Result<Seq<InstructionView>, CompileErrV>
    decreases args, args.len(),
{
    if args.len() == 0 {
        Ok(Seq::empty())
    } else {
        join_code(c_expr(locals, slots, args.last()), c_args_rev(locals, slots, args.drop_last()))
    }
}

/// The code of expressions, first to last.
#[verifier::opaque]
pub open spec fn c_exprs(locals: Map<Seq<char>, usize>, slots: Map<Seq<char>, u64>, es: Seq<ExprV>) -> Result<Seq<InstructionView>, CompileErrV>
    decreases es.len(),
{
    if es.len() == 0 {
        Ok(Seq::empty())
    } else {
        join_code(c_expr(locals, slots, es[0]), c_exprs(locals, slots, es.subrange(1, es.len() as int)))
    }
}

// ── Statements ─────────────────────────────────────────────────────────────

/// The local variables of the function being compiled.
pub ghost struct Scope {
    pub locals: Map<Seq<char>, usize>,
    pub next_local: usize,
}

/// Give `name` the next local slot.
pub open spec fn alloc_local(sc: Scope, name: Seq<char>) -> Result<(usize, Scope), CompileErrV> {
    if sc.next_local == usize::MAX {
        Err(CompileErrV::General(too_many_locals()))
    } else {
        Ok((sc.next_local, Scope { locals: sc.locals.insert(name, sc.next_local), next_local: (sc.next_local + 1) as usize }))
    }
}

/// Code followed by fixed instructions, in a scope that does not change.
pub open spec fn with_scope(c: Result<Seq<InstructionView>, CompileErrV>, sc: Scope) -> Result<(Seq<InstructionView>, Scope), CompileErrV> {
    match c {
        Err(e) => Err(e),
        Ok(code) => Ok((code, sc)),
    }
}

/// The code of a statement placed at index `base`, and the scope after it.
#[verifier::opaque]
pub open spec fn c_stmt(sc: Scope, slots: Map<Seq<char>, u64>, base: int, s: StmtV) -> Result<(Seq<InstructionView>, Scope), CompileErrV>
    decreases s, 0int,
{
    match s {
        StmtV::Let(name, value) => match c_expr(sc.locals, slots, value) {
            Err(e) => Err(e),
            Ok(vc) => match alloc_local(sc, name) {
                Err(e) => Err(e),
                Ok((slot, sc2)) => Ok((vc.push(ins(OpCode::StoreLocal, slot as u64)), sc2)),
            },
        },
        StmtV::Assign(target, value) => match target {
            TargetV::Variable(name) => match c_expr(sc.locals, slots, value) {
                Err(e) => Err(e),
                Ok(vc) => if sc.locals.contains_key(name) {
                    Ok((vc.push(ins(OpCode::StoreLocal, sc.locals[name] as u64)), sc))
                } else {
                    Err(CompileErrV::UndefinedVariable(name))
                },
            },
            TargetV::StateField(field) => if slots.contains_key(field) {
                with_scope(
                    join_code(join_code(Ok(seq![ins(OpCode::Push, slots[field])]), c_expr(sc.locals, slots, value)), Ok(seq![ins(OpCode::SStore, 0)])),
                    sc,
                )
            } else {
                Err(CompileErrV::UndefinedStateVar(field))
            },
            TargetV::StateMapEntry(field, key) => if slots.contains_key(field) {
                with_scope(
                    join_code(
                        join_code(join_code(Ok(map_base(slots[field])), c_expr(sc.locals, slots, key)), Ok(seq![ins(OpCode::Add, 0)])),
                        join_code(c_expr(sc.locals, slots, value), Ok(seq![ins(OpCode::SStore, 0)])),
                    ),
                    sc,
                )
            } else {
                Err(CompileErrV::UndefinedStateVar(field))
            },
        },
        StmtV::If(condition, body, else_body) => match c_expr(sc.locals, slots, condition) {
            Err(e) => Err(e),
            Ok(cc) => {
                let body_base = base + cc.len() + 2;
                match c_stmts(sc, slots, body_base, body) {
                    Err(e) => Err(e),
                    Ok((bc, sc1)) => if else_body.len() > 0 {
                        let else_base = body_base + bc.len() + 1;
                        match c_stmts(sc1, slots, else_base, else_body) {
                            Err(e) => Err(e),
                            Ok((ec, sc2)) => Ok((
                                cc + seq![ins(OpCode::Not, 0), ins(OpCode::JumpIf, else_base as u64)] + bc
                                    + seq![ins(OpCode::Jump, (else_base + ec.len()) as u64)] + ec,
                                sc2,
                            )),
                        }
                    } else {
                        Ok((
                            cc + seq![ins(OpCode::Not, 0), ins(OpCode::JumpIf, (body_base + bc.len()) as u64)] + bc,
                            sc1,
                        ))
                    },
                }
            },
        },
        StmtV::While(condition, body) => match c_expr(sc.locals, slots, condition) {
            Err(e) => Err(e),
            Ok(cc) => {
                let body_base = base + cc.len() + 2;
                match c_stmts(sc, slots, body_base, body) {
                    Err(e) => Err(e),
                    Ok((bc, sc1)) => Ok((
                        cc + seq![ins(OpCode::Not, 0), ins(OpCode::JumpIf, (body_base + bc.len() + 1) as u64)] + bc
                            + seq![ins(OpCode::Jump, base as u64)],
                        sc1,
                    )),
                }
            },
        },
        StmtV::Return(value) => match value {
            None => Ok((seq![ins(OpCode::Return, 0)], sc)),
            Some(e) => with_scope(join_code(c_expr(sc.locals, slots, e), Ok(seq![ins(OpCode::Return, 0)])), sc),
        },
        StmtV::Require(condition, _) => with_scope(join_code(c_expr(sc.locals, slots, condition), Ok(seq![ins(OpCode::Require, 0)])), sc),
        StmtV::Emit(_, args) => {
            let data = if args.len() > 0 { c_expr(sc.locals, slots, args.last()) } else { Ok(seq![ins(OpCode::Push, 0)]) };
            let topics = if args.len() > 1 { args.subrange(0, args.len() - 1) } else { Seq::empty() };
            with_scope(
                join_code(join_code(data, c_exprs(sc.locals, slots, topics)), Ok(seq![ins(OpCode::Push, topics.len() as u64), ins(OpCode::Log, 0)])),
                sc,
            )
        },
        StmtV::Expression(e) => with_scope(join_code(c_expr(sc.locals, slots, e), Ok(seq![ins(OpCode::Pop, 0)])), sc),
    }
}

/// The code of statements placed one after another from index `base`.
#[verifier::opaque]
pub open spec fn c_stmts(sc: Scope, slots: Map<Seq<char>, u64>, base: int, ss: Seq<StmtV>) -> Result<(Seq<InstructionView>, Scope), CompileErrV>
    decreases ss, ss.len(),
{
    if ss.len() == 0 {
        Ok((Seq::empty(), sc))
    } else {
        match c_stmt(sc, slots, base, ss[0]) {
            Err(e) => Err(e),
            Ok((c0, sc0)) => match c_stmts(sc0, slots, base + c0.len(), ss.subrange(1, ss.len() as int)) {
                Err(e) => Err(e),
                Ok((cr, scr)) => Ok((c0 + cr, scr)),
            },
        }
    }
}

// ── Functions and contracts ────────────────────────────────────────────────

/// The scope after a function's parameters took the first local slots.
pub open spec fn param_scope(params: Seq<DeclV>) -> Scope
    decreases params.len(),
{
    if params.len() == 0 {
        Scope { locals: Map::empty(), next_local: 0 }
    } else {
        let sc = param_scope(params.drop_last());
        Scope { locals: sc.locals.insert(params.last().name, (params.len() - 1) as usize), next_local: params.len() as usize }
    }
}

/// Parameters are stored from the stack into their slots, in order.
pub open spec fn param_code(n: nat) -> Seq<InstructionView> {
    Seq::new(n, |i: int| ins(OpCode::StoreLocal, i as u64))
}

/// The code ends with `Return`, `Halt` or `Revert`.
pub open spec fn ends_with_exit(code: Seq<InstructionView>) -> bool {
    code.len() > 0 && (code.last().opcode == OpCode::Return || code.last().opcode == OpCode::Halt || code.last().opcode == OpCode::Revert)
}

/// The code ends with `Halt` or `Return`.
pub open spec fn ends_with_stop(code: Seq<InstructionView>) -> bool {
    code.len() > 0 && (code.last().opcode == OpCode::Halt || code.last().opcode == OpCode::Return)
}

/// The compiler's output so far: code, entry points and the current scope.
pub ghost struct Emitted {
    pub code: Seq<InstructionView>,
    pub functions: Map<Seq<char>, usize>,
    pub scope: Scope,
}

/// Compile a function after the code emitted so far.
pub open spec fn c_function(st: Emitted, slots: Map<Seq<char>, u64>, f: FunctionV) -> Result<Emitted, CompileErrV> {
    let entry = st.code.len();
    let n = f.params.len();
    match c_stmts(param_scope(f.params), slots, (entry + n) as int, f.body) {
        Err(e) => Err(e),
        Ok((bc, sc)) => {
            let own = param_code(n) + bc;
            let all = st.code + own;
            Ok(Emitted {
                code: if ends_with_exit(own) { all } else { all.push(ins(OpCode::Return, 0)) },
                functions: st.functions.insert(f.name, entry as usize),
                scope: sc,
            })
        },
    }
}

/// Compile functions one after another.
pub open spec fn c_functions(st: Emitted, slots: Map<Seq<char>, u64>, fns: Seq<FunctionV>) -> Result<Emitted, CompileErrV>
    decreases fns.len(),
{
    if fns.len() == 0 {
        Ok(st)
    } else {
        match c_function(st, slots, fns[0]) {
            Err(e) => Err(e),
            Ok(st1) => c_functions(st1, slots, fns.subrange(1, fns.len() as int)),
        }
    }
}

/// State variables take consecutive storage slots from `next`.
pub open spec fn register_slots(slots: Map<Seq<char>, u64>, next: u64, vars: Seq<DeclV>) -> (Map<Seq<char>, u64>, u64)
    decreases vars.len(),
{
    if vars.len() == 0 {
        (slots, next)
    } else {
        let (s1, n1) = register_slots(slots, next, vars.drop_last());
        (s1.insert(vars.last().name, n1), (n1 + 1) as u64)
    }
}

/// The abstract state of a compiler.
pub ghost struct CompilerV {
    pub code: Seq<InstructionView>,
    pub functions: Map<Seq<char>, usize>,
    pub slots: Map<Seq<char>, u64>,
    pub scope: Scope,
    pub next_slot: u64,
}

/// The compiler after compiling a contract.
pub open spec fn c_contract(st: CompilerV, c: ContractV) -> Result<CompilerV, CompileErrV> {
    let (slots, next) = register_slots(st.slots, st.next_slot, c.state_vars);
    match c_functions(Emitted { code: st.code, functions: st.functions, scope: st.scope }, slots, c.functions) {
        Err(e) => Err(e),
        Ok(out) => Ok(CompilerV {
            code: if ends_with_stop(out.code) { out.code } else { out.code.push(ins(OpCode::Halt, 0)) },
            functions: out.functions,
            slots,
            scope: out.scope,
            next_slot: next,
        }),
    }
}

/// Every recorded entry point lies inside the code.
pub open spec fn entries_inside(functions: Map<Seq<char>, usize>, code: Seq<InstructionView>) -> bool {
    forall|name: Seq<char>| #[trigger] functions.contains_key(name) ==> functions[name] < code.len()
}

proof fn lemma_function_entries(st: Emitted, slots: Map<Seq<char>, u64>, f: FunctionV)
    requires
        entries_inside(st.functions, st.code),
    ensures
        c_function(st, slots, f) matches Ok(out) ==> entries_inside(out.functions, out.code)
            && out.code.len() >= st.code.len(),
{
}

proof fn lemma_functions_entries(st: Emitted, slots: Map<Seq<char>, u64>, fns: Seq<FunctionV>)
    requires
        entries_inside(st.functions, st.code),
    ensures
        c_functions(st, slots, fns) matches Ok(out) ==> entries_inside(out.functions, out.code),
    decreases fns.len(),
{
    if fns.len() > 0 {
        lemma_function_entries(st, slots, fns[0]);
        if let Ok(st1) = c_function(st, slots, fns[0]) {
            lemma_functions_entries(st1, slots, fns.subrange(1, fns.len() as int));
        }
    }
}

/// Law: compiling a contract from a compiler whose entry points lie inside
/// its code keeps every function's entry point inside the code, so each is
/// the index of an instruction.
pub proof fn lemma_contract_entries_inside(st: CompilerV, c: ContractV)
    requires
        entries_inside(st.functions, st.code),
    ensures
        c_contract(st, c) matches Ok(out) ==> entries_inside(out.functions, out.code),
{
    let (slots, next) = register_slots(st.slots, st.next_slot, c.state_vars);
    lemma_functions_entries(Emitted { code: st.code, functions: st.functions, scope: st.scope }, slots, c.functions);
}

/// The names of the declarations are pairwise distinct.
pub open spec fn distinct_names(vars: Seq<DeclV>) -> bool {
    forall|i: int, j: int| 0 <= i < j < vars.len() ==> (#[trigger] vars[i]).name != (#[trigger] vars[j]).name
}

proof fn lemma_register_slots(slots: Map<Seq<char>, u64>, next: u64, vars: Seq<DeclV>)
    requires
        distinct_names(vars),
        next + vars.len() <= u64::MAX,
    ensures
        register_slots(slots, next, vars).1 == next + vars.len(),
        forall|i: int| 0 <= i < vars.len() ==> register_slots(slots, next, vars).0[#[trigger] vars[i].name] == next + i,
        forall|n: Seq<char>| #[trigger] register_slots(slots, next, vars).0.contains_key(n)
            <==> slots.contains_key(n) || exists|i: int| 0 <= i < vars.len() && vars[i].name == n,
        forall|n: Seq<char>| slots.contains_key(n) && !(exists|i: int| 0 <= i < vars.len() && vars[i].name == n)
            ==> #[trigger] register_slots(slots, next, vars).0[n] == slots[n],
    decreases vars.len(),
{
    if vars.len() > 0 {
        let init = vars.drop_last();
        assert(distinct_names(init)) by {
            assert forall|i: int, j: int| 0 <= i < j < init.len() implies (#[trigger] init[i]).name != (#[trigger] init[j]).name by {
                assert(init[i] == vars[i] && init[j] == vars[j]);
            }
        }
        lemma_register_slots(slots, next, init);
        let last = vars.len() - 1;
        assert forall|i: int| 0 <= i < vars.len() implies register_slots(slots, next, vars).0[#[trigger] vars[i].name] == next + i by {
            if i < last {
                assert(init[i] == vars[i]);
                assert(vars[i].name != vars[last].name);
            }
        }
        assert forall|n: Seq<char>| #[trigger] register_slots(slots, next, vars).0.contains_key(n)
            <==> slots.contains_key(n) || exists|i: int| 0 <= i < vars.len() && vars[i].name == n by {
            if exists|i: int| 0 <= i < init.len() && init[i].name == n {
                let i = choose|i: int| 0 <= i < init.len() && init[i].name == n;
                assert(vars[i].name == n);
            }
            if exists|i: int| 0 <= i < vars.len() && vars[i].name == n {
                let i = choose|i: int| 0 <= i < vars.len() && vars[i].name == n;
                if i < last {
                    assert(init[i].name == n);
                }
            }
        }
        assert forall|n: Seq<char>| slots.contains_key(n) && !(exists|i: int| 0 <= i < vars.len() && vars[i].name == n)
            implies #[trigger] register_slots(slots, next, vars).0[n] == slots[n] by {
            if exists|i: int| 0 <= i < init.len() && init[i].name == n {
                let i = choose|i: int| 0 <= i < init.len() && init[i].name == n;
                assert(vars[i].name == n);
            }
            assert(vars[last].name != n);
        }
    }
}

/// Law: a compiled contract's code ends with `Halt` or `Return` (a contract
/// with no functions compiled from empty code is just `Halt`), and, when
/// the state variables have distinct names, the `i`-th of them gets storage
/// slot `next_slot + i` and the slot table holds the earlier slots and
/// exactly these names besides.
pub proof fn lemma_contract_shape(st: CompilerV, c: ContractV)
    requires
        distinct_names(c.state_vars),
        st.next_slot + c.state_vars.len() <= u64::MAX,
    ensures
        c_contract(st, c) matches Ok(out) ==> {
            &&& ends_with_stop(out.code)
            &&& (st.code.len() == 0 && c.functions.len() == 0 ==> out.code == seq![ins(OpCode::Halt, 0)])
            &&& out.next_slot == st.next_slot + c.state_vars.len()
            &&& forall|i: int| 0 <= i < c.state_vars.len() ==> out.slots[#[trigger] c.state_vars[i].name] == st.next_slot + i
            &&& forall|n: Seq<char>| #[trigger] out.slots.contains_key(n)
                <==> st.slots.contains_key(n) || exists|i: int| 0 <= i < c.state_vars.len() && c.state_vars[i].name == n
        },
{
    lemma_register_slots(st.slots, st.next_slot, c.state_vars);
    if c.functions.len() == 0 {
        let (slots, next) = register_slots(st.slots, st.next_slot, c.state_vars);
        assert(c_functions(Emitted { code: st.code, functions: st.functions, scope: st.scope }, slots, c.functions)
            == Ok::<Emitted, CompileErrV>(Emitted { code: st.code, functions: st.functions, scope: st.scope }));
        if st.code.len() == 0 {
            assert(st.code.push(ins(OpCode::Halt, 0)) =~= seq![ins(OpCode::Halt, 0)]);
        }
    }
}

} // verus!
