//! Abstract syntax tree of ThunderScript, with the abstract values that the
//! parser and compiler contracts speak of.

use vstd::prelude::*;

verus! {

/// A complete ThunderScript program (currently: one contract).
#[derive(Debug)]
pub struct Program {
    pub contract: Contract,
}

/// A contract definition.
#[derive(Debug)]
pub struct Contract {
    pub name: String,
    pub structs: Vec<StructDef>,
    pub state_vars: Vec<StateVar>,
    pub functions: Vec<Function>,
}

/// A custom struct definition.
#[derive(Debug)]
pub struct StructDef {
    pub name: String,
    pub fields: Vec<Parameter>,
}

/// A contract state variable declaration.
#[derive(Debug)]
pub struct StateVar {
    pub name: String,
    pub ty: Type,
}

/// A function definition.
#[derive(Debug)]
pub struct Function {
    pub name: String,
    pub params: Vec<Parameter>,
    pub return_type: Option<Type>,
    pub body: Vec<Statement>,
}

/// A function parameter.
#[derive(Debug)]
pub struct Parameter {
    pub name: String,
    pub ty: Type,
}

/// ThunderScript types.
#[derive(Debug, PartialEq)]
pub enum Type {
    U64,
    Bool,
    Address,
    String,
    Mapping(Box<Type>, Box<Type>),
    Struct(String),
}

/// A statement in a function body.
#[derive(Debug)]
pub enum Statement {
    /// `let name = expr;`
    Let { name: String, value: Expression },
    /// `name = expr;` or `self.name = expr;`
    Assign { target: AssignTarget, value: Expression },
    /// `if (condition) { body } else { else_body }`
    If { condition: Expression, body: Vec<Statement>, else_body: Vec<Statement> },
    /// `while (condition) { body }`
    While { condition: Expression, body: Vec<Statement> },
    /// `return expr;`
    Return { value: Option<Expression> },
    /// `require(condition, message);`
    Require { condition: Expression, message: String },
    /// `emit EventName(args...);`
    Emit { event_name: String, args: Vec<Expression> },
    /// An expression used as a statement (e.g., a function call).
    Expression(Expression),
}

/// The target of an assignment.
#[derive(Debug)]
pub enum AssignTarget {
    /// A local variable.
    Variable(String),
    /// `self.field`
    StateField(String),
    /// `self.field[key]`
    StateMapEntry(String, Expression),
}

/// An expression that evaluates to a value.
#[derive(Debug)]
pub enum Expression {
    /// Integer literal.
    IntLiteral(u64),
    /// Boolean literal.
    BoolLiteral(bool),
    /// String literal.
    StringLiteral(String),
    /// Variable reference.
    Variable(String),
    /// `self.field`
    StateAccess(String),
    /// `self.field[key]`
    StateMapAccess(String, Box<Expression>),
    /// Binary operation: `left op right`.
    BinaryOp { left: Box<Expression>, op: BinaryOperator, right: Box<Expression> },
    /// Unary operation: `op operand`.
    UnaryOp { op: UnaryOperator, operand: Box<Expression> },
    /// Function call: `name(args...)`.
    FunctionCall { name: String, args: Vec<Expression> },
    /// Struct instantiation: `StructName { field: expr, ... }`.
    StructInit { name: String, fields: Vec<(String, Expression)> },
    /// Struct field access: `expr.field`.
    StructFieldAccess { target: Box<Expression>, field: String },
}

/// Binary operators.
#[derive(Debug, Clone, Copy, PartialEq, Eq, Structural)]
pub enum BinaryOperator {
    Add,
    Sub,
    Mul,
    Div,
    Mod,
    Eq,
    Neq,
    Lt,
    Gt,
    Lte,
    Gte,
    And,
    Or,
}

/// Unary operators.
#[derive(Debug, Clone, Copy, PartialEq, Eq, Structural)]
pub enum UnaryOperator {
    Not,
    Negate,
}

// ── Abstract values ────────────────────────────────────────────────────────

/// The abstract value of a type.
pub ghost enum TypeV {
    U64,
    Bool,
    Address,
    Str,
    Mapping(Box<TypeV>, Box<TypeV>),
    Struct(Seq<char>),
}

/// The abstract value of an expression.
pub ghost enum ExprV {
    IntLiteral(u64),
    BoolLiteral(bool),
    StringLiteral(Seq<char>),
    Variable(Seq<char>),
    StateAccess(Seq<char>),
    StateMapAccess(Seq<char>, Box<ExprV>),
    BinaryOp(Box<ExprV>, BinaryOperator, Box<ExprV>),
    UnaryOp(UnaryOperator, Box<ExprV>),
    FunctionCall(Seq<char>, Seq<ExprV>),
    StructInit(Seq<char>, Seq<(Seq<char>, ExprV)>),
    StructFieldAccess(Box<ExprV>, Seq<char>),
}

/// The abstract value of an assignment target.
pub ghost enum TargetV {
    Variable(Seq<char>),
    StateField(Seq<char>),
    StateMapEntry(Seq<char>, ExprV),
}

/// The abstract value of a statement.
pub ghost enum StmtV {
    Let(Seq<char>, ExprV),
    Assign(TargetV, ExprV),
    If(ExprV, Seq<StmtV>, Seq<StmtV>),
    While(ExprV, Seq<StmtV>),
    Return(Option<ExprV>),
    Require(ExprV, Seq<char>),
    Emit(Seq<char>, Seq<ExprV>),
    Expression(ExprV),
}

/// The abstract value of a parameter or state variable: name and type.
pub ghost struct DeclV {
    pub name: Seq<char>,
    pub ty: TypeV,
}

/// The abstract value of a function.
pub ghost struct FunctionV {
    pub name: Seq<char>,
    pub params: Seq<DeclV>,
    pub return_type: Option<TypeV>,
    pub body: Seq<StmtV>,
}

/// The abstract value of a contract.
pub ghost struct ContractV {
    pub name: Seq<char>,
    pub structs: Seq<(Seq<char>, Seq<DeclV>)>,
    pub state_vars: Seq<DeclV>,
    pub functions: Seq<FunctionV>,
}

pub open spec fn type_view(t: Type) -> TypeV
    decreases t,
{
    match t {
        Type::U64 => TypeV::U64,
        Type::Bool => TypeV::Bool,
        Type::Address => TypeV::Address,
        Type::String => TypeV::Str,
        Type::Mapping(k, v) => TypeV::Mapping(Box::new(type_view(*k)), Box::new(type_view(*v))),
        Type::Struct(n) => TypeV::Struct(n@),
    }
}

pub open spec fn expr_view(e: Expression) -> ExprV
    decreases e,
{
    match e {
        Expression::IntLiteral(v) => ExprV::IntLiteral(v),
        Expression::BoolLiteral(b) => ExprV::BoolLiteral(b),
        Expression::StringLiteral(s) => ExprV::StringLiteral(s@),
        Expression::Variable(s) => ExprV::Variable(s@),
        Expression::StateAccess(s) => ExprV::StateAccess(s@),
        Expression::StateMapAccess(s, k) => ExprV::StateMapAccess(s@, Box::new(expr_view(*k))),
        Expression::BinaryOp { left, op, right } => ExprV::BinaryOp(
            Box::new(expr_view(*left)),
            op,
            Box::new(expr_view(*right)),
        ),
        Expression::UnaryOp { op, operand } => ExprV::UnaryOp(op, Box::new(expr_view(*operand))),
        Expression::FunctionCall { name, args } => ExprV::FunctionCall(name@, exprs_view(args@)),
        Expression::StructInit { name, fields } => ExprV::StructInit(name@, fields_view(fields@)),
        Expression::StructFieldAccess { target, field } => ExprV::StructFieldAccess(
            Box::new(expr_view(*target)),
            field@,
        ),
    }
}

pub open spec fn exprs_view(es: Seq<Expression>) -> Seq<ExprV>
    decreases es,
{
    if es.len() == 0 {
        Seq::empty()
    } else {
        exprs_view(es.drop_last()).push(expr_view(es.last()))
    }
}

pub open spec fn fields_view(fs: Seq<(String, Expression)>) -> Seq<(Seq<char>, ExprV)>
    decreases fs,
{
    if fs.len() == 0 {
        Seq::empty()
    } else {
        fields_view(fs.drop_last()).push((fs.last().0@, expr_view(fs.last().1)))
    }
}

pub open spec fn target_view(t: AssignTarget) -> TargetV {
    match t {
        AssignTarget::Variable(s) => TargetV::Variable(s@),
        AssignTarget::StateField(s) => TargetV::StateField(s@),
        AssignTarget::StateMapEntry(s, k) => TargetV::StateMapEntry(s@, expr_view(k)),
    }
}

pub open spec fn stmt_view(s: Statement) -> StmtV
    decreases s,
{
    match s {
        Statement::Let { name, value } => StmtV::Let(name@, expr_view(value)),
        Statement::Assign { target, value } => StmtV::Assign(target_view(target), expr_view(value)),
        Statement::If { condition, body, else_body } => StmtV::If(
            expr_view(condition),
            stmts_view(body@),
            stmts_view(else_body@),
        ),
        Statement::While { condition, body } => StmtV::While(expr_view(condition), stmts_view(body@)),
        Statement::Return { value } => StmtV::Return(
            match value {
                Some(e) => Some(expr_view(e)),
                None => None,
            },
        ),
        Statement::Require { condition, message } => StmtV::Require(expr_view(condition), message@),
        Statement::Emit { event_name, args } => StmtV::Emit(event_name@, exprs_view(args@)),
        Statement::Expression(e) => StmtV::Expression(expr_view(e)),
    }
}

pub open spec fn stmts_view(ss: Seq<Statement>) -> Seq<StmtV>
    decreases ss,
{
    if ss.len() == 0 {
        Seq::empty()
    } else {
        stmts_view(ss.drop_last()).push(stmt_view(ss.last()))
    }
}

pub open spec fn params_view(ps: Seq<Parameter>) -> Seq<DeclV> {
    ps.map_values(|p: Parameter| DeclV { name: p.name@, ty: type_view(p.ty) })
}

pub open spec fn state_vars_view(vs: Seq<StateVar>) -> Seq<DeclV> {
    vs.map_values(|v: StateVar| DeclV { name: v.name@, ty: type_view(v.ty) })
}

pub open spec fn function_view(f: Function) -> FunctionV {
    FunctionV {
        name: f.name@,
        params: params_view(f.params@),
        return_type: match f.return_type {
            Some(t) => Some(type_view(t)),
            None => None,
        },
        body: stmts_view(f.body@),
    }
}

pub open spec fn functions_view(fs: Seq<Function>) -> Seq<FunctionV> {
    fs.map_values(|f: Function| function_view(f))
}

pub open spec fn contract_view(c: Contract) -> ContractV {
    ContractV {
        name: c.name@,
        structs: c.structs@.map_values(|s: StructDef| (s.name@, params_view(s.fields@))),
        state_vars: state_vars_view(c.state_vars@),
        functions: functions_view(c.functions@),
    }
}

/// The views of a list of expressions, element by element.
pub proof fn lemma_exprs_view(es: Seq<Expression>)
    ensures
        exprs_view(es).len() == es.len(),
        forall|i: int| 0 <= i < es.len() ==> #[trigger] exprs_view(es)[i] == expr_view(es[i]),
    decreases es.len(),
{
    if es.len() > 0 {
        lemma_exprs_view(es.drop_last());
    }
}

/// The views of a list of statements, element by element.
pub proof fn lemma_stmts_view(ss: Seq<Statement>)
    ensures
        stmts_view(ss).len() == ss.len(),
        forall|i: int| 0 <= i < ss.len() ==> #[trigger] stmts_view(ss)[i] == stmt_view(ss[i]),
    decreases ss.len(),
{
    if ss.len() > 0 {
        lemma_stmts_view(ss.drop_last());
    }
}

} // verus!
