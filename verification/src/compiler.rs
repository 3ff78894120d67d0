//! The ThunderScript compiler: from the syntax tree to Thunder VM bytecode.

use vstd::prelude::*;
use crate::ast::{
    contract_view, expr_view, exprs_view, function_view, lemma_exprs_view, lemma_stmts_view, params_view, stmt_view, stmts_view,
    target_view, AssignTarget, BinaryOperator, DeclV, ExprV, Expression, Function, FunctionV, Program, Statement, StmtV,
    UnaryOperator,
};
use crate::codegen::{
    alloc_local, builtin_opcode, builtin_takes_argument, c_args_rev, c_contract, c_expr, c_exprs, c_function, c_functions, c_stmt,
    c_stmts, map_base, param_code, param_scope, register_slots, spec_utf8, string_word, join_code,
    with_scope, CompileErrV, CompilerV, Emitted, Scope, MAP_SLOT_FACTOR,
};
use crate::crypto::hash_sha256;
use crate::grammar::p_contract;
use crate::lexer::{lemma_tokenize_ends_with_eof, lex_error_text, spec_tokenize, tokens_view, Cursor, Lexer};
use crate::parser::{parse_error_text, Parser};
use crate::names::NameTable;
use crate::opcode::{ins, Instruction, InstructionView, OpCode};
use crate::vm::word_of;

verus! {

// ── Errors ─────────────────────────────────────────────────────────────────

/// Why a program could not be compiled.
#[derive(Debug)]
pub enum CompileError {
    UndefinedVariable(String),
    UndefinedStateVar(String),
    General(String),
}

impl View for CompileError {
    type V = CompileErrV;

    open spec fn view(&self) -> CompileErrV {
        match self {
            CompileError::UndefinedVariable(s) => CompileErrV::UndefinedVariable(s@),
            CompileError::UndefinedStateVar(s) => CompileErrV::UndefinedStateVar(s@),
            CompileError::General(s) => CompileErrV::General(s@),
        }
    }
}

/// The text of a compile error.
pub open spec fn compile_error_text(e: CompileErrV) -> Seq<char> {
    match e {
        CompileErrV::UndefinedVariable(name) => "undefined variable: "@ + name,
        CompileErrV::UndefinedStateVar(name) => "undefined state variable: "@ + name,
        CompileErrV::General(message) => "compilation error: "@ + message,
    }
}

impl CompileError {
    /// The error as text.
    pub fn to_string(&self) -> (s: String)
        ensures
            s@ == compile_error_text(self@),
    {
        match self {
            CompileError::UndefinedVariable(name) => {
                let mut s = String::from_str("undefined variable: ");
                s.append(name.as_str());
                s
            },
            CompileError::UndefinedStateVar(name) => {
                let mut s = String::from_str("undefined state variable: ");
                s.append(name.as_str());
                s
            },
            CompileError::General(message) => {
                let mut s = String::from_str("compilation error: ");
                s.append(message.as_str());
                s
            },
        }
    }
}

/// `r` is what the code generator gives: success with `code` appended to
/// `before`, or the same error.
pub open spec fn emitted_as(
    r: Result<(), CompileError>,
    g: Result<Seq<InstructionView>, CompileErrV>,
    before: Seq<InstructionView>,
    after: Seq<InstructionView>,
) -> bool {
    match g {
        Ok(code) => r is Ok && after == before + code,
        Err(e) => r matches Err(x) && x@ == e,
    }
}

/// `r` is what the code generator gives for a statement: success with `code`
/// appended to `before` and the scope `sc`, or the same error.
pub open spec fn stmt_emitted_as(
    r: Result<(), CompileError>,
    g: Result<(Seq<InstructionView>, Scope), CompileErrV>,
    before: Seq<InstructionView>,
    after: Seq<InstructionView>,
    sc: Scope,
) -> bool {
    match g {
        Ok((code, sc2)) => r is Ok && after == before + code && sc == sc2,
        Err(e) => r matches Err(x) && x@ == e,
    }
}

/// Code already emitted in front of a statement result.
pub open spec fn prepend(acc: Seq<InstructionView>, g: Result<(Seq<InstructionView>, Scope), CompileErrV>) -> Result<(Seq<InstructionView>, Scope), CompileErrV> {
    match g {
        Err(e) => Err(e),
        Ok((c, sc)) => Ok((acc + c, sc)),
    }
}

/// The views of a list of instructions.
pub open spec fn code_view(v: Seq<Instruction>) -> Seq<InstructionView> {
    v.map_values(|i: Instruction| i@)
}

// ── Strings ────────────────────────────────────────────────────────────────

/// The UTF-8 bytes of a text, as `str::as_bytes` gives them.
///
/// Trusted: a `str` holds exactly the UTF-8 encoding of its characters, as
/// the standard library documents; `spec_utf8` spells that encoding out.
#[verifier::external_body]
fn utf8_bytes(s: &str) -> (b: Vec<u8>)
    ensures
        b@ == spec_utf8(s@),
{
    s.as_bytes().to_vec()
}

/// The word that stands for a string literal.
fn string_literal_word(s: &String) -> (w: u64)
    ensures
        w == string_word(s@),
{
    let bytes = utf8_bytes(s.as_str());
    let digest = hash_sha256(bytes.as_slice());
    word_of(&digest)
}

/// Whether two texts are equal.
fn same_text(a: &String, b: &str) -> (r: bool)
    ensures
        r == (a@ == b@),
{
    *a == String::from_str(b)
}

/// The opcode of a built-in function, if `name` is one.
fn builtin(name: &String) -> (o: Option<OpCode>)
    ensures
        o == builtin_opcode(name@),
{
    if same_text(name, "caller") {
        Some(OpCode::Caller)
    } else if same_text(name, "balance") {
        Some(OpCode::Balance)
    } else if same_text(name, "timestamp") {
        Some(OpCode::Timestamp)
    } else if same_text(name, "block_height") {
        Some(OpCode::BlockHeight)
    } else if same_text(name, "self_address") {
        Some(OpCode::SelfAddress)
    } else if same_text(name, "hash") {
        Some(OpCode::Hash)
    } else {
        None
    }
}

fn binary_opcode_of(op: BinaryOperator) -> (c: OpCode)
    ensures
        c == crate::codegen::binary_opcode(op),
{
    match op {
        BinaryOperator::Add => OpCode::Add,
        BinaryOperator::Sub => OpCode::Sub,
        BinaryOperator::Mul => OpCode::Mul,
        BinaryOperator::Div => OpCode::Div,
        BinaryOperator::Mod => OpCode::Mod,
        BinaryOperator::Eq => OpCode::Eq,
        BinaryOperator::Neq => OpCode::Neq,
        BinaryOperator::Lt => OpCode::Lt,
        BinaryOperator::Gt => OpCode::Gt,
        BinaryOperator::Lte => OpCode::Lte,
        BinaryOperator::Gte => OpCode::Gte,
        BinaryOperator::And => OpCode::And,
        BinaryOperator::Or => OpCode::Or,
    }
}

/// After a successful emission, the generated code is what was appended.
proof fn lemma_emitted(r: Result<(), CompileError>, g: Result<Seq<InstructionView>, CompileErrV>, before: Seq<InstructionView>, after: Seq<InstructionView>)
    requires
        emitted_as(r, g, before, after),
        r is Ok,
    ensures
        before.len() <= after.len(),
        after == before + after.subrange(before.len() as int, after.len() as int),
        g == Ok::<Seq<InstructionView>, CompileErrV>(after.subrange(before.len() as int, after.len() as int)),
{
    if let Ok(code) = g {
        assert(after.subrange(before.len() as int, after.len() as int) =~= code);
    }
}

proof fn lemma_stmt_emitted(
    r: Result<(), CompileError>,
    g: Result<(Seq<InstructionView>, Scope), CompileErrV>,
    before: Seq<InstructionView>,
    after: Seq<InstructionView>,
    sc: Scope,
)
    requires
        stmt_emitted_as(r, g, before, after, sc),
        r is Ok,
    ensures
        before.len() <= after.len(),
        after == before + after.subrange(before.len() as int, after.len() as int),
        g == Ok::<(Seq<InstructionView>, Scope), CompileErrV>((after.subrange(before.len() as int, after.len() as int), sc)),
{
    if let Ok((code, sc2)) = g {
        assert(after.subrange(before.len() as int, after.len() as int) =~= code);
    }
}

proof fn lemma_prepend_assoc(a: Seq<InstructionView>, b: Seq<InstructionView>, g: Result<(Seq<InstructionView>, Scope), CompileErrV>)
    ensures
        prepend(a, prepend(b, g)) == prepend(a + b, g),
{
    if let Ok((c, sc)) = g {
        assert(a + (b + c) =~= (a + b) + c);
    }
}

proof fn lemma_then_assoc(a: Seq<InstructionView>, b: Seq<InstructionView>, r: Result<Seq<InstructionView>, CompileErrV>)
    ensures
        join_code(Ok(a), join_code(Ok(b), r)) == join_code(Ok(a + b), r),
{
    if let Ok(y) = r {
        assert(a + (b + y) =~= (a + b) + y);
    }
}

// ── The compiler ───────────────────────────────────────────────────────────

/// Compiler output: a list of instructions plus metadata.
#[derive(Debug)]
pub struct CompiledContract {
    /// The contract name.
    pub name: String,
    /// The compiled bytecode (list of instructions).
    pub instructions: Vec<Instruction>,
    /// Function name → instruction index (entry point).
    pub function_table: NameTable<usize>,
    /// State variable name → storage slot index.
    pub state_slots: NameTable<u64>,
}

impl CompiledContract {
    /// The code entered at `function`: a jump to the function's entry (one
    /// further on, as the jump itself comes first) followed by the whole
    /// code. `None` when the contract has no such function.
    pub fn entry_program(&self, function: &str) -> (r: Option<Vec<Instruction>>)
        requires
            self.function_table@.contains_key(function@) ==> self.function_table@[function@] < usize::MAX,
        ensures
            !self.function_table@.contains_key(function@) ==> r is None,
            self.function_table@.contains_key(function@) ==> (r matches Some(p) && code_view(p@) == seq![
                ins(OpCode::Jump, (self.function_table@[function@] + 1) as u64),
            ] + code_view(self.instructions@)),
    {
        match self.function_table.get(function) {
            None => None,
            Some(entry) => {
                let mut p: Vec<Instruction> = Vec::new();
                p.push(Instruction::with_operand(OpCode::Jump, (entry + 1) as u64));
                let mut body = copy_code(&self.instructions);
                let ghost head = p@;
                let ghost tail = body@;
                p.append(&mut body);
                assert(code_view(p@) =~= seq![ins(OpCode::Jump, (entry + 1) as u64)] + code_view(self.instructions@)) by {
                    assert(p@ =~= head + tail);
                    assert(code_view(p@) =~= code_view(head) + code_view(tail));
                }
                Some(p)
            },
        }
    }
}

/// A copy of a list of instructions.
fn copy_code(v: &Vec<Instruction>) -> (c: Vec<Instruction>)
    ensures
        code_view(c@) == code_view(v@),
{
    let mut c: Vec<Instruction> = Vec::new();
    let mut i: usize = 0;
    while i < v.len()
        invariant
            i <= v@.len(),
            c@.len() == i,
            forall|j: int| 0 <= j < i ==> #[trigger] c@[j]@ == v@[j]@,
        decreases v@.len() - i,
    {
        let data = vstd::slice::slice_to_vec(v[i].data.as_slice());
        c.push(Instruction { opcode: v[i].opcode, operand: v[i].operand, data });
        i += 1;
    }
    assert(code_view(c@) =~= code_view(v@));
    c
}

/// ThunderScript → Thunder VM bytecode compiler.
pub struct Compiler {
    instructions: Vec<Instruction>,
    function_table: NameTable<usize>,
    state_slots: NameTable<u64>,
    /// Local variable name → slot index (per function).
    locals: NameTable<usize>,
    next_local: usize,
    next_state_slot: u64,
}

impl Compiler {
    /// The instructions emitted so far.
    pub closed spec fn code(&self) -> Seq<InstructionView> {
        code_view(self.instructions@)
    }

    /// The local variables of the function being compiled.
    pub closed spec fn scope(&self) -> Scope {
        Scope { locals: self.locals@, next_local: self.next_local }
    }

    /// Storage slots of the state variables.
    pub closed spec fn slots(&self) -> Map<Seq<char>, u64> {
        self.state_slots@
    }

    /// Function entry points.
    pub closed spec fn functions(&self) -> Map<Seq<char>, usize> {
        self.function_table@
    }

    /// The next free storage slot.
    pub closed spec fn next_slot(&self) -> u64 {
        self.next_state_slot
    }

    /// The whole abstract state.
    pub open spec fn state(&self) -> CompilerV {
        CompilerV { code: self.code(), functions: self.functions(), slots: self.slots(), scope: self.scope(), next_slot: self.next_slot() }
    }

    /// What has been emitted: code, entry points and the current scope.
    pub open spec fn emitted(&self) -> Emitted {
        Emitted { code: self.code(), functions: self.functions(), scope: self.scope() }
    }

    /// The symbol tables outside the current function are as in `other`.
    pub open spec fn same_globals(&self, other: Compiler) -> bool {
        &&& self.slots() == other.slots()
        &&& self.functions() == other.functions()
        &&& self.next_slot() == other.next_slot()
    }

    /// Everything but the code is as in `other`.
    pub open spec fn same_tables(&self, other: Compiler) -> bool {
        &&& self.scope() == other.scope()
        &&& self.slots() == other.slots()
        &&& self.functions() == other.functions()
        &&& self.next_slot() == other.next_slot()
    }

    /// A compiler with nothing emitted and no names known.
    pub fn new() -> (c: Self)
        ensures
            c.code() == Seq::<InstructionView>::empty(),
            c.scope() == (Scope { locals: Map::empty(), next_local: 0 }),
            c.slots() == Map::<Seq<char>, u64>::empty(),
            c.functions() == Map::<Seq<char>, usize>::empty(),
            c.next_slot() == 0,
    {
        let c = Compiler {
            instructions: Vec::new(),
            function_table: NameTable::new(),
            state_slots: NameTable::new(),
            locals: NameTable::new(),
            next_local: 0,
            next_state_slot: 0,
        };
        assert(c.code() =~= Seq::<InstructionView>::empty());
        c
    }

    fn emit(&mut self, instr: Instruction)
        ensures
            final(self).code() == old(self).code().push(instr@),
            final(self).same_tables(*old(self)),
    {
        self.instructions.push(instr);
        assert(self.code() =~= old(self).code().push(instr@));
    }

    /// Replace the instruction at `at`.
    fn patch(&mut self, at: usize, instr: Instruction)
        requires
            at < old(self).code().len(),
        ensures
            final(self).code() == old(self).code().update(at as int, instr@),
            final(self).same_tables(*old(self)),
    {
        self.instructions.set(at, instr);
        assert(self.code() =~= old(self).code().update(at as int, instr@));
    }

    /// The number of instructions emitted so far.
    fn code_len(&self) -> (n: usize)
        ensures
            n == self.code().len(),
    {
        self.instructions.len()
    }

    fn resolve_local(&self, name: &String) -> (r: Result<usize, CompileError>)
        ensures
            self.scope().locals.contains_key(name@) ==> r == Ok::<usize, CompileError>(self.scope().locals[name@]),
            !self.scope().locals.contains_key(name@) ==> (r matches Err(e) && e@ == CompileErrV::UndefinedVariable(name@)),
    {
        match self.locals.get(name.as_str()) {
            Some(slot) => Ok(slot),
            None => Err(CompileError::UndefinedVariable(name.clone())),
        }
    }

    fn resolve_state_slot(&self, name: &String) -> (r: Result<u64, CompileError>)
        ensures
            self.slots().contains_key(name@) ==> r == Ok::<u64, CompileError>(self.slots()[name@]),
            !self.slots().contains_key(name@) ==> (r matches Err(e) && e@ == CompileErrV::UndefinedStateVar(name@)),
    {
        match self.state_slots.get(name.as_str()) {
            Some(slot) => Ok(slot),
            None => Err(CompileError::UndefinedStateVar(name.clone())),
        }
    }

    /// Emit the storage base of map `slot`.
    fn emit_map_base(&mut self, slot: u64)
        ensures
            final(self).code() == old(self).code() + map_base(slot),
            final(self).same_tables(*old(self)),
    {
        self.emit(Instruction::with_operand(OpCode::Push, slot));
        self.emit(Instruction::with_operand(OpCode::Push, MAP_SLOT_FACTOR));
        self.emit(Instruction::new(OpCode::Mul));
        assert(self.code() =~= old(self).code() + map_base(slot));
    }

    // ── Expressions ────────────────────────────────────────────────────

    fn compile_expression(&mut self, expr: &Expression) -> (r: Result<(), CompileError>)
        ensures
            final(self).same_tables(*old(self)),
            emitted_as(r, c_expr(old(self).scope().locals, old(self).slots(), expr_view(*expr)), old(self).code(), final(self).code()),
        decreases expr,
    {
        reveal(c_expr);
        reveal(c_args_rev);
        let ghost locals = self.scope().locals;
        let ghost slots = self.slots();
        let ghost before = self.code();
        match expr {
            Expression::IntLiteral(val) => {
                self.emit(Instruction::with_operand(OpCode::Push, *val));
                assert(self.code() =~= before + seq![ins(OpCode::Push, *val)]);
                assert(emitted_as(Ok(()), c_expr(locals, slots, expr_view(*expr)), before, self.code()));
            },
            Expression::BoolLiteral(val) => {
                let v: u64 = if *val { 1 } else { 0 };
                self.emit(Instruction::with_operand(OpCode::Push, v));
                assert(self.code() =~= before + seq![ins(OpCode::Push, v)]);
                assert(emitted_as(Ok(()), c_expr(locals, slots, expr_view(*expr)), before, self.code()));
            },
            Expression::StringLiteral(val) => {
                let word = string_literal_word(val);
                self.emit(Instruction::with_operand(OpCode::Push, word));
                assert(self.code() =~= before + seq![ins(OpCode::Push, word)]);
                assert(emitted_as(Ok(()), c_expr(locals, slots, expr_view(*expr)), before, self.code()));
            },
            Expression::Variable(name) => {
                let slot = match self.resolve_local(name) {
                    Ok(v) => v,
                    Err(e) => {
                        return Err(e);
                    },
                };
                self.emit(Instruction::with_operand(OpCode::LoadLocal, slot as u64));
                assert(self.code() =~= before + seq![ins(OpCode::LoadLocal, slot as u64)]);
                assert(emitted_as(Ok(()), c_expr(locals, slots, expr_view(*expr)), before, self.code()));
            },
            Expression::StateAccess(field) => {
                let slot = match self.resolve_state_slot(field) {
                    Ok(v) => v,
                    Err(e) => {
                        return Err(e);
                    },
                };
                self.emit(Instruction::with_operand(OpCode::Push, slot));
                self.emit(Instruction::new(OpCode::SLoad));
                assert(self.code() =~= before + seq![ins(OpCode::Push, slot), ins(OpCode::SLoad, 0)]);
                assert(emitted_as(Ok(()), c_expr(locals, slots, expr_view(*expr)), before, self.code()));
            },
            Expression::StateMapAccess(field, key) => {
                let slot = match self.resolve_state_slot(field) {
                    Ok(v) => v,
                    Err(e) => {
                        return Err(e);
                    },
                };
                self.emit_map_base(slot);
                let ghost mid = self.code();
                let rk = self.compile_expression(key);
                if let Err(e) = rk {
                    return Err(e);
                }
                let ghost after_key = self.code();
                proof { lemma_emitted(rk, c_expr(locals, slots, expr_view(**key)), mid, after_key); }
                self.emit(Instruction::new(OpCode::Add));
                self.emit(Instruction::new(OpCode::SLoad));
                proof {
                    let kc = after_key.subrange(mid.len() as int, after_key.len() as int);
                    assert(self.code() =~= before + ((map_base(slot) + kc) + seq![ins(OpCode::Add, 0), ins(OpCode::SLoad, 0)]));
                }
                assert(emitted_as(Ok(()), c_expr(locals, slots, expr_view(*expr)), before, self.code()));
            },
            Expression::BinaryOp { left, op, right } => {
                let rl = self.compile_expression(left);
                if let Err(e) = rl {
                    return Err(e);
                }
                let ghost mid = self.code();
                proof { lemma_emitted(rl, c_expr(locals, slots, expr_view(**left)), before, mid); }
                let rr = self.compile_expression(right);
                if let Err(e) = rr {
                    return Err(e);
                }
                let ghost after_right = self.code();
                proof { lemma_emitted(rr, c_expr(locals, slots, expr_view(**right)), mid, after_right); }
                let opcode = binary_opcode_of(*op);
                self.emit(Instruction::new(opcode));
                proof {
                    let lc = mid.subrange(before.len() as int, mid.len() as int);
                    let rc = after_right.subrange(mid.len() as int, after_right.len() as int);
                    assert(self.code() =~= before + ((lc + rc) + seq![ins(opcode, 0)]));
                }
                assert(emitted_as(Ok(()), c_expr(locals, slots, expr_view(*expr)), before, self.code()));
            },
            Expression::UnaryOp { op, operand } => {
                let ro = self.compile_expression(operand);
                if let Err(e) = ro {
                    return Err(e);
                }
                let ghost mid = self.code();
                proof { lemma_emitted(ro, c_expr(locals, slots, expr_view(**operand)), before, mid); }
                let ghost oc = mid.subrange(before.len() as int, mid.len() as int);
                match op {
                    UnaryOperator::Not => {
                        self.emit(Instruction::new(OpCode::Not));
                        assert(self.code() =~= before + (oc + seq![ins(OpCode::Not, 0)]));
                    },
                    UnaryOperator::Negate => {
                        self.emit(Instruction::with_operand(OpCode::Push, 0));
                        self.emit(Instruction::new(OpCode::Swap));
                        self.emit(Instruction::new(OpCode::Sub));
                        assert(self.code() =~= before + (oc + seq![ins(OpCode::Push, 0), ins(OpCode::Swap, 0), ins(OpCode::Sub, 0)]));
                    },
                }
                assert(emitted_as(Ok(()), c_expr(locals, slots, expr_view(*expr)), before, self.code()));
            },
            Expression::FunctionCall { name, args } => {
                proof { lemma_exprs_view(args@); }
                match builtin(name) {
                    Some(op) => {
                        if (op == OpCode::Balance || op == OpCode::Hash) && args.len() > 0 {
                            proof {
                                assert(decreases_to!(*expr => *args));
                                assert(decreases_to!(*args => args@));
                                assert(decreases_to!(args@ => args@[0]));
                            }
                            let ra = self.compile_expression(&args[0]);
                            if let Err(e) = ra {
                                return Err(e);
                            }
                            proof { lemma_emitted(ra, c_expr(locals, slots, expr_view(args@[0])), before, self.code()); }
                        }
                        let ghost mid = self.code();
                        self.emit(Instruction::new(op));
                        proof {
                            let ac = mid.subrange(before.len() as int, mid.len() as int);
                            assert(self.code() =~= before + (ac + seq![ins(op, 0)]));
                            assert(builtin_takes_argument(op) == (op == OpCode::Balance || op == OpCode::Hash));
                            if !(builtin_takes_argument(op) && args@.len() > 0) {
                                assert(ac =~= Seq::<InstructionView>::empty());
                            }
                        }
                    },
                    None => {
                        let ghost av = exprs_view(args@);
                        let ghost mut acc: Seq<InstructionView> = Seq::empty();
                        let mut i = args.len();
                        proof {
                            assert(av.subrange(0, i as int) =~= av);
                            if let Ok(y) = c_args_rev(locals, slots, av) {
                                assert(acc + y =~= y);
                            }
                            assert(expr_view(*expr) == crate::ast::ExprV::FunctionCall(name@, av));
                            assert forall|j: int| 0 <= j < args@.len() implies decreases_to!(*expr => #[trigger] args@[j]) by {
                                assert(decreases_to!(*expr => *args));
                                assert(decreases_to!(*args => args@));
                                assert(decreases_to!(args@ => args@[j]));
                            }
                        }
                        let ghost whole = c_expr(locals, slots, expr_view(*expr));
                        assert(whole == join_code(c_args_rev(locals, slots, av), Ok(seq![ins(OpCode::Call, 0)])));
                        while i > 0
                            invariant
                                i <= args@.len(),
                                av == exprs_view(args@),
                                av.len() == args@.len(),
                                forall|j: int| 0 <= j < args@.len() ==> #[trigger] av[j] == expr_view(args@[j]),
                                forall|j: int| 0 <= j < args@.len() ==> decreases_to!(*expr => #[trigger] args@[j]),
                                whole == c_expr(locals, slots, expr_view(*expr)),
                                whole == join_code(c_args_rev(locals, slots, av), Ok(seq![ins(OpCode::Call, 0)])),
                                self.same_tables(*old(self)),
                                locals == old(self).scope().locals,
                                slots == old(self).slots(),
                                before == old(self).code(),
                                self.code() == before + acc,
                                c_args_rev(locals, slots, av) == join_code(Ok(acc), c_args_rev(locals, slots, av.subrange(0, i as int))),
                            decreases i,
                        {
                            reveal(c_args_rev);
                            reveal(c_expr);
                            i = i - 1;
                            let ghost start = self.code();
                            proof {
                                let sub = av.subrange(0, i + 1);
                                assert(sub.last() == av[i as int]);
                                assert(sub.drop_last() =~= av.subrange(0, i as int));
                            }
                            if let Err(e) = self.compile_expression(&args[i]) {
                                return Err(e);
                            }
                            proof {
                                let ci = self.code().subrange(start.len() as int, self.code().len() as int);
                                assert(self.code() =~= start + ci);
                                if let Ok(code) = c_expr(locals, slots, av[i as int]) {
                                    assert(ci =~= code);
                                }
                                assert(c_args_rev(locals, slots, av.subrange(0, i + 1)) == join_code(Ok(ci), c_args_rev(locals, slots, av.subrange(0, i as int))));
                                lemma_then_assoc(acc, ci, c_args_rev(locals, slots, av.subrange(0, i as int)));
                                acc = acc + ci;
                                assert(self.code() =~= before + acc);
                            }
                        }
                        self.emit(Instruction::with_operand(OpCode::Call, 0));
                        proof {
                            assert(av.subrange(0, 0) =~= Seq::<crate::ast::ExprV>::empty());
                            assert(acc + Seq::<InstructionView>::empty() =~= acc);
                            assert(self.code() =~= before + (acc + seq![ins(OpCode::Call, 0)]));
                        }
                    },
                }
                assert(emitted_as(Ok(()), c_expr(locals, slots, expr_view(*expr)), before, self.code()));
            },
            Expression::StructInit { .. } => {
                return Err(CompileError::General(String::from_str("struct expressions are not supported")));
            },
            Expression::StructFieldAccess { .. } => {
                return Err(CompileError::General(String::from_str("struct expressions are not supported")));
            },
        }
        Ok(())
    }
}


impl Compiler {
    /// Give `name` the next local slot.
    fn alloc_local(&mut self, name: &String) -> (slot: usize)
        requires
            old(self).scope().next_local < usize::MAX,
        ensures
            alloc_local(old(self).scope(), name@) == Ok::<(usize, Scope), CompileErrV>((slot, final(self).scope())),
            final(self).code() == old(self).code(),
            final(self).same_globals(*old(self)),
    {
        let slot = self.next_local;
        self.locals.insert(name.clone(), slot);
        self.next_local = self.next_local + 1;
        slot
    }

    // ── Statements ─────────────────────────────────────────────────────

    fn compile_statement(&mut self, stmt: &Statement) -> (r: Result<(), CompileError>)
        ensures
            final(self).same_globals(*old(self)),
            stmt_emitted_as(
                r,
                c_stmt(old(self).scope(), old(self).slots(), old(self).code().len() as int, stmt_view(*stmt)),
                old(self).code(),
                final(self).code(),
                final(self).scope(),
            ),
        decreases stmt, 1int,
    {
        match stmt {
            Statement::Let { name, value } => self.compile_let(name, value),
            Statement::Assign { target, value } => self.compile_assign(target, value),
            Statement::If { .. } => self.compile_if(stmt),
            Statement::While { .. } => self.compile_while(stmt),
            Statement::Return { value } => self.compile_return(value),
            Statement::Require { condition, message } => self.compile_require(condition, message),
            Statement::Emit { event_name, args } => self.compile_emit(event_name, args),
            Statement::Expression(e) => self.compile_expr_statement(e),
        }
    }

    fn compile_let(&mut self, name: &String, value: &Expression) -> (r: Result<(), CompileError>)
        ensures
            final(self).same_globals(*old(self)),
            stmt_emitted_as(
                r,
                c_stmt(old(self).scope(), old(self).slots(), old(self).code().len() as int, StmtV::Let(name@, expr_view(*value))),
                old(self).code(),
                final(self).code(),
                final(self).scope(),
            ),
    {
        reveal(c_stmt);
        let ghost sc = self.scope();
        let ghost slots = self.slots();
        let ghost before = self.code();
            let rv = self.compile_expression(value);
            if let Err(e) = rv {
                return Err(e);
            }
            proof { lemma_emitted(rv, c_expr(sc.locals, slots, expr_view(*value)), before, self.code()); }
            if self.next_local == usize::MAX {
                return Err(CompileError::General(String::from_str("too many local variables")));
            }
            let ghost mid = self.code();
            let slot = self.alloc_local(name);
            self.emit(Instruction::with_operand(OpCode::StoreLocal, slot as u64));
            proof {
                let vc = mid.subrange(before.len() as int, mid.len() as int);
                assert(self.code() =~= before + vc.push(ins(OpCode::StoreLocal, slot as u64)));
            }
        Ok(())
    }

    fn compile_assign(&mut self, target: &AssignTarget, value: &Expression) -> (r: Result<(), CompileError>)
        ensures
            final(self).same_globals(*old(self)),
            stmt_emitted_as(
                r,
                c_stmt(old(self).scope(), old(self).slots(), old(self).code().len() as int, StmtV::Assign(target_view(*target), expr_view(*value))),
                old(self).code(),
                final(self).code(),
                final(self).scope(),
            ),
    {
        reveal(c_stmt);
        let ghost sc = self.scope();
        let ghost slots = self.slots();
        let ghost before = self.code();
        match target {
            AssignTarget::Variable(name) => {
                let rv = self.compile_expression(value);
                if let Err(e) = rv {
                    return Err(e);
                }
                proof { lemma_emitted(rv, c_expr(sc.locals, slots, expr_view(*value)), before, self.code()); }
                let slot = match self.resolve_local(name) {
                    Ok(v) => v,
                    Err(e) => {
                        return Err(e);
                    },
                };
                let ghost mid = self.code();
                self.emit(Instruction::with_operand(OpCode::StoreLocal, slot as u64));
                proof {
                    let vc = mid.subrange(before.len() as int, mid.len() as int);
                    assert(self.code() =~= before + vc.push(ins(OpCode::StoreLocal, slot as u64)));
                }
            },
            AssignTarget::StateField(field) => {
                let slot = match self.resolve_state_slot(field) {
                    Ok(v) => v,
                    Err(e) => {
                        return Err(e);
                    },
                };
                self.emit(Instruction::with_operand(OpCode::Push, slot));
                let ghost mid = self.code();
                let rv = self.compile_expression(value);
                if let Err(e) = rv {
                    return Err(e);
                }
                proof { lemma_emitted(rv, c_expr(sc.locals, slots, expr_view(*value)), mid, self.code()); }
                let ghost after_value = self.code();
                self.emit(Instruction::new(OpCode::SStore));
                proof {
                    let vc = after_value.subrange(mid.len() as int, after_value.len() as int);
                    assert(self.code() =~= before + ((seq![ins(OpCode::Push, slot)] + vc) + seq![ins(OpCode::SStore, 0)]));
                }
            },
            AssignTarget::StateMapEntry(field, key) => {
                let slot = match self.resolve_state_slot(field) {
                    Ok(v) => v,
                    Err(e) => {
                        return Err(e);
                    },
                };
                self.emit_map_base(slot);
                let ghost m1 = self.code();
                let rk = self.compile_expression(key);
                if let Err(e) = rk {
                    return Err(e);
                }
                proof { lemma_emitted(rk, c_expr(sc.locals, slots, expr_view(*key)), m1, self.code()); }
                let ghost m2 = self.code();
                self.emit(Instruction::new(OpCode::Add));
                let ghost m3 = self.code();
                let rv = self.compile_expression(value);
                if let Err(e) = rv {
                    return Err(e);
                }
                proof { lemma_emitted(rv, c_expr(sc.locals, slots, expr_view(*value)), m3, self.code()); }
                let ghost m4 = self.code();
                self.emit(Instruction::new(OpCode::SStore));
                proof {
                    let kc = m2.subrange(m1.len() as int, m2.len() as int);
                    let vc = m4.subrange(m3.len() as int, m4.len() as int);
                    assert(self.code() =~= before + (((map_base(slot) + kc) + seq![ins(OpCode::Add, 0)]) + (vc + seq![ins(OpCode::SStore, 0)])));
                }
            },
        }
        Ok(())
    }

    fn compile_if(&mut self, stmt: &Statement) -> (r: Result<(), CompileError>)
        requires
            stmt is If,
        ensures
            final(self).same_globals(*old(self)),
            stmt_emitted_as(
                r,
                c_stmt(old(self).scope(), old(self).slots(), old(self).code().len() as int, stmt_view(*stmt)),
                old(self).code(),
                final(self).code(),
                final(self).scope(),
            ),
        decreases stmt, 0int,
    {
        reveal(c_stmt);
        reveal(c_stmts);
        let ghost sc = self.scope();
        let ghost slots = self.slots();
        let ghost before = self.code();
        let (condition, body, else_body) = match stmt {
            Statement::If { condition, body, else_body } => (condition, body, else_body),
            _ => {
                return Err(CompileError::General(String::from_str("not an if statement")));
            },
        };
            let rc = self.compile_expression(condition);
            if let Err(e) = rc {
                return Err(e);
            }
            proof { lemma_emitted(rc, c_expr(sc.locals, slots, expr_view(*condition)), before, self.code()); }
            let ghost cc = self.code().subrange(before.len() as int, self.code().len() as int);
            self.emit(Instruction::new(OpCode::Not));
            let jump_to_else = self.code_len();
            self.emit(Instruction::with_operand(OpCode::JumpIf, 0));
            let ghost body_start = self.code();
            proof {
                lemma_stmts_view(body@);
                lemma_stmts_view(else_body@);
                assert(decreases_to!(*stmt => *body));
                assert(decreases_to!(*stmt => *else_body));
            }
            let rb = self.compile_block(body);
            if let Err(e) = rb {
                return Err(e);
            }
            let ghost body_end = self.code();
            let ghost sc1 = self.scope();
            proof { lemma_stmt_emitted(rb, c_stmts(sc, slots, body_start.len() as int, stmts_view(body@)), body_start, body_end, sc1); }
            let ghost bc = body_end.subrange(body_start.len() as int, body_end.len() as int);
            if else_body.len() > 0 {
                let jump_over_else = self.code_len();
                self.emit(Instruction::with_operand(OpCode::Jump, 0));
                let else_start = self.code_len();
                self.patch(jump_to_else, Instruction::with_operand(OpCode::JumpIf, else_start as u64));
                let ghost else_begin = self.code();
                let re = self.compile_block(else_body);
                if let Err(e) = re {
                    return Err(e);
                }
                let ghost else_end = self.code();
                proof { lemma_stmt_emitted(re, c_stmts(sc1, slots, else_begin.len() as int, stmts_view(else_body@)), else_begin, else_end, self.scope()); }
                let after_else = self.code_len();
                self.patch(jump_over_else, Instruction::with_operand(OpCode::Jump, after_else as u64));
                proof {
                    let ec = else_end.subrange(else_begin.len() as int, else_end.len() as int);
                    assert(self.code() =~= before + (cc + seq![ins(OpCode::Not, 0), ins(OpCode::JumpIf, else_start as u64)] + bc
                        + seq![ins(OpCode::Jump, after_else as u64)] + ec));
                }
            } else {
                let after_if = self.code_len();
                self.patch(jump_to_else, Instruction::with_operand(OpCode::JumpIf, after_if as u64));
                proof {
                    assert(self.code() =~= before + (cc + seq![ins(OpCode::Not, 0), ins(OpCode::JumpIf, after_if as u64)] + bc));
                }
            }
        Ok(())
    }

    fn compile_while(&mut self, stmt: &Statement) -> (r: Result<(), CompileError>)
        requires
            stmt is While,
        ensures
            final(self).same_globals(*old(self)),
            stmt_emitted_as(
                r,
                c_stmt(old(self).scope(), old(self).slots(), old(self).code().len() as int, stmt_view(*stmt)),
                old(self).code(),
                final(self).code(),
                final(self).scope(),
            ),
        decreases stmt, 0int,
    {
        reveal(c_stmt);
        reveal(c_stmts);
        let ghost sc = self.scope();
        let ghost slots = self.slots();
        let ghost before = self.code();
        let (condition, body) = match stmt {
            Statement::While { condition, body } => (condition, body),
            _ => {
                return Err(CompileError::General(String::from_str("not a while statement")));
            },
        };
            let loop_start = self.code_len();
            let rc = self.compile_expression(condition);
            if let Err(e) = rc {
                return Err(e);
            }
            proof { lemma_emitted(rc, c_expr(sc.locals, slots, expr_view(*condition)), before, self.code()); }
            let ghost cc = self.code().subrange(before.len() as int, self.code().len() as int);
            self.emit(Instruction::new(OpCode::Not));
            let jump_exit = self.code_len();
            self.emit(Instruction::with_operand(OpCode::JumpIf, 0));
            let ghost body_start = self.code();
            proof {
                lemma_stmts_view(body@);
                assert(decreases_to!(*stmt => *body));
            }
            let rb = self.compile_block(body);
            if let Err(e) = rb {
                return Err(e);
            }
            let ghost body_end = self.code();
            proof { lemma_stmt_emitted(rb, c_stmts(sc, slots, body_start.len() as int, stmts_view(body@)), body_start, body_end, self.scope()); }
            let ghost bc = body_end.subrange(body_start.len() as int, body_end.len() as int);
            self.emit(Instruction::with_operand(OpCode::Jump, loop_start as u64));
            let after_loop = self.code_len();
            self.patch(jump_exit, Instruction::with_operand(OpCode::JumpIf, after_loop as u64));
            proof {
                assert(self.code() =~= before + (cc + seq![ins(OpCode::Not, 0), ins(OpCode::JumpIf, after_loop as u64)] + bc
                    + seq![ins(OpCode::Jump, loop_start as u64)]));
            }
        Ok(())
    }

    fn compile_return(&mut self, value: &Option<Expression>) -> (r: Result<(), CompileError>)
        ensures
            final(self).same_globals(*old(self)),
            stmt_emitted_as(
                r,
                c_stmt(old(self).scope(), old(self).slots(), old(self).code().len() as int, StmtV::Return(match *value { Some(e) => Some(expr_view(e)), None => None })),
                old(self).code(),
                final(self).code(),
                final(self).scope(),
            ),
    {
        reveal(c_stmt);
        let ghost sc = self.scope();
        let ghost slots = self.slots();
        let ghost before = self.code();
            match value {
                Some(e) => {
                    let rv = self.compile_expression(e);
                    if let Err(err) = rv {
                        return Err(err);
                    }
                    proof { lemma_emitted(rv, c_expr(sc.locals, slots, expr_view(*e)), before, self.code()); }
                    let ghost mid = self.code();
                    self.emit(Instruction::new(OpCode::Return));
                    proof {
                        let vc = mid.subrange(before.len() as int, mid.len() as int);
                        assert(self.code() =~= before + (vc + seq![ins(OpCode::Return, 0)]));
                    }
                },
                None => {
                    self.emit(Instruction::new(OpCode::Return));
                    assert(self.code() =~= before + seq![ins(OpCode::Return, 0)]);
                },
            }
        Ok(())
    }

    fn compile_require(&mut self, condition: &Expression, message: &String) -> (r: Result<(), CompileError>)
        ensures
            final(self).same_globals(*old(self)),
            stmt_emitted_as(
                r,
                c_stmt(old(self).scope(), old(self).slots(), old(self).code().len() as int, StmtV::Require(expr_view(*condition), message@)),
                old(self).code(),
                final(self).code(),
                final(self).scope(),
            ),
    {
        reveal(c_stmt);
        let ghost sc = self.scope();
        let ghost slots = self.slots();
        let ghost before = self.code();
            let rc = self.compile_expression(condition);
            if let Err(e) = rc {
                return Err(e);
            }
            proof { lemma_emitted(rc, c_expr(sc.locals, slots, expr_view(*condition)), before, self.code()); }
            let ghost mid = self.code();
            self.emit(Instruction::new(OpCode::Require));
            proof {
                let vc = mid.subrange(before.len() as int, mid.len() as int);
                assert(self.code() =~= before + (vc + seq![ins(OpCode::Require, 0)]));
            }
        Ok(())
    }

    fn compile_emit(&mut self, event_name: &String, args: &Vec<Expression>) -> (r: Result<(), CompileError>)
        ensures
            final(self).same_globals(*old(self)),
            stmt_emitted_as(
                r,
                c_stmt(old(self).scope(), old(self).slots(), old(self).code().len() as int, StmtV::Emit(event_name@, exprs_view(args@))),
                old(self).code(),
                final(self).code(),
                final(self).scope(),
            ),
    {
        reveal(c_stmt);
        let ghost sc = self.scope();
        let ghost slots = self.slots();
        let ghost before = self.code();
            proof { lemma_exprs_view(args@); }
            let ghost av = exprs_view(args@);
            let n = args.len();
            if n > 0 {
                let rd = self.compile_expression(&args[n - 1]);
                if let Err(e) = rd {
                    return Err(e);
                }
                proof {
                    lemma_emitted(rd, c_expr(sc.locals, slots, expr_view(args@[n - 1])), before, self.code());
                    assert(av.last() == av[n - 1]);
                }
            } else {
                self.emit(Instruction::with_operand(OpCode::Push, 0));
                assert(self.code() =~= before + seq![ins(OpCode::Push, 0)]);
            }
            let ghost data_end = self.code();
            let ghost dc = data_end.subrange(before.len() as int, data_end.len() as int);
            proof {
                if n == 0 {
                    assert(dc =~= seq![ins(OpCode::Push, 0)]);
                }
            }
            let topic_count: usize = if n > 1 { n - 1 } else { 0 };
            let ghost topics = if n > 1 { av.subrange(0, n - 1) } else { Seq::<ExprV>::empty() };
            let ghost mut acc: Seq<InstructionView> = Seq::empty();
            let mut j: usize = 0;
            proof {
                assert(topics.len() == topic_count);
                assert(topics.subrange(0, topics.len() as int) =~= topics);
                if let Ok(y) = c_exprs(sc.locals, slots, topics) {
                    assert(acc + y =~= y);
                }
            }
            let ghost whole = c_stmt(sc, slots, before.len() as int, StmtV::Emit(event_name@, av));
            assert(whole == with_scope(
                join_code(join_code(Ok(dc), c_exprs(sc.locals, slots, topics)), Ok(seq![ins(OpCode::Push, topic_count as u64), ins(OpCode::Log, 0)])),
                sc,
            ));
            while j < topic_count
                invariant
                    topic_count < n || topic_count == 0,
                    topic_count <= args@.len(),
                    n == args@.len(),
                    j <= topic_count,
                    topics.len() == topic_count,
                    forall|k: int| 0 <= k < topic_count ==> #[trigger] topics[k] == expr_view(args@[k]),
                    whole == c_stmt(sc, slots, before.len() as int, StmtV::Emit(event_name@, av)),
                    whole == with_scope(
                        join_code(join_code(Ok(dc), c_exprs(sc.locals, slots, topics)), Ok(seq![ins(OpCode::Push, topic_count as u64), ins(OpCode::Log, 0)])),
                        sc,
                    ),
                    av == exprs_view(args@),
                    before == old(self).code(),
                    sc == old(self).scope(),
                    slots == old(self).slots(),
                    self.same_globals(*old(self)),
                    self.scope() == sc,
                    self.slots() == slots,
                    self.code() == data_end + acc,
                    c_exprs(sc.locals, slots, topics) == join_code(Ok(acc), c_exprs(sc.locals, slots, topics.subrange(j as int, topic_count as int))),
                decreases topic_count - j,
            {
                reveal(c_exprs);
                let ghost start = self.code();
                proof {
                    let rest = topics.subrange(j as int, topic_count as int);
                    assert(rest[0] == topics[j as int]);
                    assert(rest.subrange(1, rest.len() as int) =~= topics.subrange(j + 1, topic_count as int));
                }
                let rt = self.compile_expression(&args[j]);
                if let Err(e) = rt {
                    return Err(e);
                }
                proof {
                    lemma_emitted(rt, c_expr(sc.locals, slots, expr_view(args@[j as int])), start, self.code());
                    let ci = self.code().subrange(start.len() as int, self.code().len() as int);
                    lemma_then_assoc(acc, ci, c_exprs(sc.locals, slots, topics.subrange(j + 1, topic_count as int)));
                    acc = acc + ci;
                    assert(self.code() =~= data_end + acc);
                }
                j = j + 1;
            }
            let ghost topics_end = self.code();
            self.emit(Instruction::with_operand(OpCode::Push, topic_count as u64));
            self.emit(Instruction::new(OpCode::Log));
            proof {
                reveal(c_exprs);
                assert(topics.subrange(topic_count as int, topic_count as int) =~= Seq::<ExprV>::empty());
                assert(acc + Seq::<InstructionView>::empty() =~= acc);
                assert(self.code() =~= before + ((dc + acc) + seq![ins(OpCode::Push, topic_count as u64), ins(OpCode::Log, 0)]));
            }
        Ok(())
    }

    fn compile_expr_statement(&mut self, e: &Expression) -> (r: Result<(), CompileError>)
        ensures
            final(self).same_globals(*old(self)),
            stmt_emitted_as(
                r,
                c_stmt(old(self).scope(), old(self).slots(), old(self).code().len() as int, StmtV::Expression(expr_view(*e))),
                old(self).code(),
                final(self).code(),
                final(self).scope(),
            ),
    {
        reveal(c_stmt);
        let ghost sc = self.scope();
        let ghost slots = self.slots();
        let ghost before = self.code();
            let rv = self.compile_expression(e);
            if let Err(err) = rv {
                return Err(err);
            }
            proof { lemma_emitted(rv, c_expr(sc.locals, slots, expr_view(*e)), before, self.code()); }
            let ghost mid = self.code();
            self.emit(Instruction::new(OpCode::Pop));
            proof {
                let vc = mid.subrange(before.len() as int, mid.len() as int);
                assert(self.code() =~= before + (vc + seq![ins(OpCode::Pop, 0)]));
            }
        Ok(())
    }

    /// Compile statements one after another.
    fn compile_block(&mut self, stmts: &Vec<Statement>) -> (r: Result<(), CompileError>)
        ensures
            final(self).same_globals(*old(self)),
            stmt_emitted_as(
                r,
                c_stmts(old(self).scope(), old(self).slots(), old(self).code().len() as int, stmts_view(stmts@)),
                old(self).code(),
                final(self).code(),
                final(self).scope(),
            ),
        decreases stmts, 0int,
    {
        proof { lemma_stmts_view(stmts@); }
        let ghost sv = stmts_view(stmts@);
        let ghost slots = self.slots();
        let ghost before = self.code();
        let ghost g = c_stmts(self.scope(), slots, before.len() as int, sv);
        let ghost mut acc: Seq<InstructionView> = Seq::empty();
        proof {
            assert(sv.subrange(0, sv.len() as int) =~= sv);
            if let Ok((c, s)) = g {
                assert(acc + c =~= c);
            }
            assert forall|k: int| 0 <= k < stmts@.len() implies decreases_to!(*stmts => #[trigger] stmts@[k]) by {
                assert(decreases_to!(*stmts => stmts@));
                assert(decreases_to!(stmts@ => stmts@[k]));
            }
        }
        let mut i: usize = 0;
        while i < stmts.len()
            invariant
                i <= stmts@.len(),
                sv == stmts_view(stmts@),
                sv.len() == stmts@.len(),
                forall|k: int| 0 <= k < stmts@.len() ==> #[trigger] sv[k] == stmt_view(stmts@[k]),
                forall|k: int| 0 <= k < stmts@.len() ==> decreases_to!(*stmts => #[trigger] stmts@[k]),
                self.same_globals(*old(self)),
                self.slots() == slots,
                before == old(self).code(),
                self.code() == before + acc,
                g == c_stmts(old(self).scope(), slots, before.len() as int, sv),
                g == prepend(acc, c_stmts(self.scope(), slots, self.code().len() as int, sv.subrange(i as int, sv.len() as int))),
            decreases stmts@.len() - i,
        {
            reveal(c_stmts);
            reveal(c_stmt);
            let ghost start = self.code();
            let ghost sc_i = self.scope();
            proof {
                let rest = sv.subrange(i as int, sv.len() as int);
                assert(rest[0] == sv[i as int]);
                assert(rest.subrange(1, rest.len() as int) =~= sv.subrange(i + 1, sv.len() as int));
            }
            let rs = self.compile_statement(&stmts[i]);
            if let Err(e) = rs {
                return Err(e);
            }
            proof {
                lemma_stmt_emitted(rs, c_stmt(sc_i, slots, start.len() as int, stmt_view(stmts@[i as int])), start, self.code(), self.scope());
                let ci = self.code().subrange(start.len() as int, self.code().len() as int);
                lemma_prepend_assoc(acc, ci, c_stmts(self.scope(), slots, self.code().len() as int, sv.subrange(i + 1, sv.len() as int)));
                acc = acc + ci;
                assert(self.code() =~= before + acc);
            }
            i = i + 1;
        }
        proof {
            reveal(c_stmts);
            assert(sv.subrange(i as int, sv.len() as int) =~= Seq::<StmtV>::empty());
            assert(acc + Seq::<InstructionView>::empty() =~= acc);
        }
        Ok(())
    }
}


impl Compiler {
    /// The opcode of the last instruction emitted, if any.
    fn last_opcode(&self) -> (o: Option<OpCode>)
        ensures
            self.code().len() == 0 ==> o is None,
            self.code().len() > 0 ==> o == Some(self.code().last().opcode),
    {
        let n = self.instructions.len();
        if n == 0 {
            None
        } else {
            Some(self.instructions[n - 1].opcode)
        }
    }

    // ── Functions ──────────────────────────────────────────────────────

    fn compile_function(&mut self, func: &Function) -> (r: Result<(), CompileError>)
        ensures
            final(self).slots() == old(self).slots(),
            final(self).next_slot() == old(self).next_slot(),
            match c_function(old(self).emitted(), old(self).slots(), function_view(*func)) {
                Ok(out) => r is Ok && final(self).emitted() == out,
                Err(e) => r matches Err(x) && x@ == e,
            },
    {
        let ghost before = self.code();
        let ghost slots = self.slots();
        let ghost pv = params_view(func.params@);
        self.locals.clear();
        self.next_local = 0;
        let entry = self.code_len();
        self.function_table.insert(func.name.clone(), entry);
        let ghost functions = self.functions();
        let mut i: usize = 0;
        proof {
            assert(pv.subrange(0, 0) =~= Seq::<DeclV>::empty());
            assert(param_code(0) =~= Seq::<InstructionView>::empty());
            assert(self.code() =~= before + param_code(0));
        }
        while i < func.params.len()
            invariant
                i <= func.params@.len(),
                pv == params_view(func.params@),
                self.scope() == param_scope(pv.subrange(0, i as int)),
                self.code() == before + param_code(i as nat),
                self.functions() == functions,
                self.slots() == slots,
                self.next_slot() == old(self).next_slot(),
            decreases func.params@.len() - i,
        {
            let slot = self.alloc_local(&func.params[i].name);
            self.emit(Instruction::with_operand(OpCode::StoreLocal, slot as u64));
            proof {
                let sub = pv.subrange(0, i + 1);
                assert(sub.drop_last() =~= pv.subrange(0, i as int));
                assert(param_code((i + 1) as nat) =~= param_code(i as nat).push(ins(OpCode::StoreLocal, i as u64)));
            }
            i = i + 1;
        }
        proof {
            assert(pv.subrange(0, i as int) =~= pv);
        }
        let ghost body_start = self.code();
        let rb = self.compile_block(&func.body);
        if let Err(e) = rb {
            return Err(e);
        }
        proof {
            lemma_stmt_emitted(rb, c_stmts(param_scope(pv), slots, body_start.len() as int, stmts_view(func.body@)), body_start, self.code(), self.scope());
            let bc = self.code().subrange(body_start.len() as int, self.code().len() as int);
            assert(self.code() =~= before + param_code(pv.len()) + bc);
        }
        let last = self.last_opcode();
        let exits = self.code_len() > entry && match last {
            Some(op) => op == OpCode::Return || op == OpCode::Halt || op == OpCode::Revert,
            None => false,
        };
        proof {
            let own = self.code().subrange(before.len() as int, self.code().len() as int);
            assert(own =~= param_code(pv.len()) + self.code().subrange(body_start.len() as int, self.code().len() as int));
            if own.len() > 0 {
                assert(own.last() == self.code().last());
            }
            assert(exits == crate::codegen::ends_with_exit(own));
            assert(self.code() =~= before + own);
        }
        if !exits {
            self.emit(Instruction::new(OpCode::Return));
        }
        Ok(())
    }

    /// Compile a parsed ThunderScript program.
    ///
    /// State variables take the next storage slots, each function is
    /// compiled after the code emitted so far, and the code is closed with
    /// `Halt` unless it already ends with `Halt` or `Return`.
    pub fn compile(&mut self, program: &Program) -> (r: Result<CompiledContract, CompileError>)
        requires
            old(self).next_slot() + program.contract.state_vars@.len() <= u64::MAX,
        ensures
            match c_contract(old(self).state(), contract_view(program.contract)) {
                Ok(st) => r matches Ok(cc) && {
                    &&& final(self).state() == st
                    &&& cc.name@ == program.contract.name@
                    &&& code_view(cc.instructions@) == st.code
                    &&& cc.function_table@ == st.functions
                    &&& cc.state_slots@ == st.slots
                },
                Err(e) => r matches Err(x) && x@ == e,
            },
    {
        let contract = &program.contract;
        let ghost cv = contract_view(*contract);
        let ghost vars = cv.state_vars;
        let ghost start = self.state();
        let mut i: usize = 0;
        proof {
            assert(vars.subrange(0, 0) =~= Seq::<DeclV>::empty());
        }
        while i < contract.state_vars.len()
            invariant
                i <= contract.state_vars@.len(),
                vars == contract_view(*contract).state_vars,
                vars.len() == contract.state_vars@.len(),
                start == old(self).state(),
                start.next_slot + vars.len() <= u64::MAX,
                (self.slots(), self.next_slot()) == register_slots(start.slots, start.next_slot, vars.subrange(0, i as int)),
                self.next_slot() == start.next_slot + i,
                self.code() == start.code,
                self.functions() == start.functions,
                self.scope() == start.scope,
            decreases contract.state_vars@.len() - i,
        {
            let sv = &contract.state_vars[i];
            self.state_slots.insert(sv.name.clone(), self.next_state_slot);
            self.next_state_slot = self.next_state_slot + 1;
            proof {
                let sub = vars.subrange(0, i + 1);
                assert(sub.drop_last() =~= vars.subrange(0, i as int));
            }
            i = i + 1;
        }
        proof {
            assert(vars.subrange(0, i as int) =~= vars);
        }
        let ghost slots = self.slots();
        let ghost fv = cv.functions;
        let ghost e0 = self.emitted();
        let mut k: usize = 0;
        proof {
            assert(fv.subrange(0, fv.len() as int) =~= fv);
        }
        while k < contract.functions.len()
            invariant
                k <= contract.functions@.len(),
                fv == contract_view(*contract).functions,
                fv.len() == contract.functions@.len(),
                self.slots() == slots,
                self.next_slot() == register_slots(start.slots, start.next_slot, vars).1,
                slots == register_slots(start.slots, start.next_slot, vars).0,
                start == old(self).state(),
                e0 == (Emitted { code: start.code, functions: start.functions, scope: start.scope }),
                cv == contract_view(*contract),
                cv == contract_view(program.contract),
                vars == cv.state_vars,
                c_functions(e0, slots, fv) == c_functions(self.emitted(), slots, fv.subrange(k as int, fv.len() as int)),
            decreases contract.functions@.len() - k,
        {
            proof {
                let rest = fv.subrange(k as int, fv.len() as int);
                assert(rest[0] == fv[k as int]);
                assert(rest.subrange(1, rest.len() as int) =~= fv.subrange(k + 1, fv.len() as int));
            }
            let rf = self.compile_function(&contract.functions[k]);
            if let Err(e) = rf {
                return Err(e);
            }
            k = k + 1;
        }
        proof {
            assert(fv.subrange(k as int, fv.len() as int) =~= Seq::<FunctionV>::empty());
        }
        let last = self.last_opcode();
        let stops = match last {
            Some(op) => op == OpCode::Halt || op == OpCode::Return,
            None => false,
        };
        if !stops {
            self.emit(Instruction::new(OpCode::Halt));
        }
        Ok(CompiledContract {
            name: contract.name.clone(),
            instructions: copy_code(&self.instructions),
            function_table: self.function_table.duplicate(),
            state_slots: self.state_slots.duplicate(),
        })
    }
}

impl Default for Compiler {
    fn default() -> (c: Self)
        ensures
            c.code() == Seq::<InstructionView>::empty(),
            c.scope() == (Scope { locals: Map::empty(), next_local: 0 }),
            c.slots() == Map::<Seq<char>, u64>::empty(),
            c.functions() == Map::<Seq<char>, usize>::empty(),
            c.next_slot() == 0,
    {
        Self::new()
    }
}


// ── Public compile function ────────────────────────────────────────────────

/// A compiler with nothing emitted.
pub open spec fn fresh_compiler() -> CompilerV {
    CompilerV {
        code: Seq::empty(),
        functions: Map::empty(),
        slots: Map::empty(),
        scope: Scope { locals: Map::empty(), next_local: 0 },
        next_slot: 0,
    }
}

/// What compiling a source text gives: the contract's name and the final
/// compiler state, or the text of the first error (lexical, syntactic or
/// from code generation).
pub open spec fn spec_compile_source(src: Seq<char>) -> Result<(Seq<char>, CompilerV), Seq<char>> {
    match spec_tokenize(src, Cursor { pos: 0, line: 1, column: 1 }) {
        Err(e) => Err(lex_error_text(e)),
        Ok(toks) => match p_contract(toks, 0) {
            Err(e) => Err(parse_error_text(e)),
            Ok((c, _)) => match c_contract(fresh_compiler(), c) {
                Err(e) => Err(compile_error_text(e)),
                Ok(st) => Ok((c.name, st)),
            },
        },
    }
}

/// Convenience function: compile ThunderScript source → bytecode.
pub fn compile_source(source: &str) -> (r: Result<CompiledContract, String>)
    requires
        source@.len() + 2 <= usize::MAX,
    ensures
        match spec_compile_source(source@) {
            Ok((name, st)) => r matches Ok(cc) && {
                &&& cc.name@ == name
                &&& code_view(cc.instructions@) == st.code
                &&& cc.function_table@ == st.functions
                &&& cc.state_slots@ == st.slots
            },
            Err(message) => r matches Err(m) && m@ == message,
        },
{
    let mut lexer = Lexer::new(source);
    let tokens = match lexer.tokenize() {
        Ok(t) => t,
        Err(e) => {
            return Err(e.to_string());
        },
    };
    proof {
        lemma_tokenize_ends_with_eof(source@, Cursor { pos: 0, line: 1, column: 1 });
        assert(tokens_view(tokens@).len() == tokens@.len());
    }
    let mut parser = Parser::new(tokens);
    let program = match parser.parse() {
        Ok(p) => p,
        Err(e) => {
            return Err(e.to_string());
        },
    };
    let mut compiler = Compiler::new();
    let var_count = program.contract.state_vars.len();
    assert(var_count <= u64::MAX);
    match compiler.compile(&program) {
        Ok(c) => Ok(c),
        Err(e) => Err(e.to_string()),
    }
}

} // verus!
