//! The ThunderScript parser: a recursive-descent parser from tokens to the
//! syntax tree.

use vstd::prelude::*;
use crate::text::{decimal, decimal_text, decimal_text_u64};
use crate::ast::{contract_view, expr_view, exprs_view, function_view, functions_view, params_view, state_vars_view, stmt_view, stmts_view, type_view, AssignTarget, BinaryOperator, Contract, ContractV, DeclV, ExprV, Expression, Function, FunctionV, Parameter, Program, StateVar, Statement, StmtV, Type, TypeV, UnaryOperator};
use crate::grammar::{additive_op, at_kind, close_args, comparison_op, equality_op, err_here, err_token, multiplicative_op, next_pos, outcome, p_additive, p_additive_tail, p_and, p_and_tail, p_args, p_assign_or_expression, p_block, p_braced, p_call_args, p_comparison, p_comparison_tail, p_condition, p_contract, p_emit, p_equality, p_equality_tail, p_expect, p_expr_semi, p_expression, p_function, p_ident, p_if, p_let, p_members, p_multiplicative, p_multiplicative_tail, p_or, p_or_tail, p_params, p_primary, p_require, p_return, p_return_type, p_self_statement, p_state_var, p_statement, p_string, p_type, p_unary, p_while, escape_char, escaped, kind_name, quoted, stream_ok, tok_at, ParseErrV};
use crate::lexer::{chars_of, kind_tag, string_of, tokens_view, Token, TokenKind, TokenKindView, TokenView};

verus! {

// ── Errors ─────────────────────────────────────────────────────────────────

/// A syntax error with its position.
#[derive(Debug)]
pub struct ParseError {
    pub message: String,
    pub line: usize,
    pub column: usize,
}

impl View for ParseError {
    type V = ParseErrV;

    open spec fn view(&self) -> ParseErrV {
        ParseErrV { message: self.message@, line: self.line as int, column: self.column as int }
    }
}

/// The text of a syntax error: position and message.
pub open spec fn parse_error_text(e: ParseErrV) -> Seq<char> {
    "Parse error at "@ + decimal(e.line as nat) + ":"@ + decimal(e.column as nat) + ": "@ + e.message
}

impl ParseError {
    /// The error as text: `Parse error at LINE:COLUMN: MESSAGE`.
    pub fn to_string(&self) -> (s: String)
        ensures
            s@ == parse_error_text(self@),
    {
        let mut s = String::from_str("Parse error at ");
        s.append(decimal_text(self.line).as_str());
        s.append(":");
        s.append(decimal_text(self.column).as_str());
        s.append(": ");
        s.append(self.message.as_str());
        s
    }
}

/// The characters of `t` as `quoted` writes them.
fn quoted_chars(t: &str) -> (v: Vec<char>)
    ensures
        v@ == quoted(t@),
{
    let cs = chars_of(t);
    let mut v: Vec<char> = Vec::new();
    v.push('"');
    let mut i: usize = 0;
    while i < cs.len()
        invariant
            i <= cs@.len(),
            cs@ == t@,
            v@ == seq!['"'] + escaped(cs@.subrange(0, i as int)),
        decreases cs@.len() - i,
    {
        let c = cs[i];
        let ghost before = v@;
        if c == '"' {
            v.push('\\');
            v.push('"');
        } else if c == '\\' {
            v.push('\\');
            v.push('\\');
        } else if c == '\t' {
            v.push('\\');
            v.push('t');
        } else if c == '\n' {
            v.push('\\');
            v.push('n');
        } else if c == '\r' {
            v.push('\\');
            v.push('r');
        } else if c == '\0' {
            v.push('\\');
            v.push('0');
        } else if (c as u32) < 32 || (c as u32) == 127 {
            v.push('\\');
            v.push('u');
            v.push('{');
            let n = c as u32;
            if n < 16 {
                v.push(hex_digit_char(n));
            } else {
                v.push(hex_digit_char(n / 16));
                v.push(hex_digit_char(n % 16));
            }
            v.push('}');
        } else {
            v.push(c);
        }
        proof {
            let sub = cs@.subrange(0, i + 1);
            assert(sub.drop_last() =~= cs@.subrange(0, i as int));
            assert(v@ =~= before + escape_char(c));
        }
        i += 1;
    }
    v.push('"');
    proof {
        assert(cs@.subrange(0, i as int) =~= cs@);
    }
    v
}

/// The lowercase hex digit of a number below 16.
fn hex_digit_char(n: u32) -> (c: char)
    requires
        n < 16,
    ensures
        c == crate::crypto::hex_digit(n as int),
{
    if n < 10 {
        ((n + 48) as u8) as char
    } else {
        ((n + 87) as u8) as char
    }
}

/// `head`, then `t` quoted, then `)`.
fn with_quoted(head: &str, t: &String) -> (s: String)
    ensures
        s@ == head@ + quoted(t@) + ")"@,
{
    let mut v = chars_of(head);
    let mut q = quoted_chars(t.as_str());
    v.append(&mut q);
    let mut close = chars_of(")");
    v.append(&mut close);
    string_of(v.as_slice())
}

/// How a token kind is named in messages (see `kind_name`).
pub(crate) fn kind_name_text(k: &TokenKind) -> (s: String)
    ensures
        s@ == kind_name(k@),
{
    match k {
        TokenKind::Contract => String::from_str("Contract"),
        TokenKind::Fn => String::from_str("Fn"),
        TokenKind::Let => String::from_str("Let"),
        TokenKind::If => String::from_str("If"),
        TokenKind::Else => String::from_str("Else"),
        TokenKind::While => String::from_str("While"),
        TokenKind::Return => String::from_str("Return"),
        TokenKind::State => String::from_str("State"),
        TokenKind::Emit => String::from_str("Emit"),
        TokenKind::Require => String::from_str("Require"),
        TokenKind::Self_ => String::from_str("Self_"),
        TokenKind::True => String::from_str("True"),
        TokenKind::False => String::from_str("False"),
        TokenKind::U64 => String::from_str("U64"),
        TokenKind::Bool => String::from_str("Bool"),
        TokenKind::Address => String::from_str("Address"),
        TokenKind::StringType => String::from_str("StringType"),
        TokenKind::MapType => String::from_str("Map"),
        TokenKind::Plus => String::from_str("Plus"),
        TokenKind::Minus => String::from_str("Minus"),
        TokenKind::Star => String::from_str("Star"),
        TokenKind::Slash => String::from_str("Slash"),
        TokenKind::Percent => String::from_str("Percent"),
        TokenKind::Eq => String::from_str("Eq"),
        TokenKind::Neq => String::from_str("Neq"),
        TokenKind::Lt => String::from_str("Lt"),
        TokenKind::Gt => String::from_str("Gt"),
        TokenKind::Lte => String::from_str("Lte"),
        TokenKind::Gte => String::from_str("Gte"),
        TokenKind::And => String::from_str("And"),
        TokenKind::Or => String::from_str("Or"),
        TokenKind::Not => String::from_str("Not"),
        TokenKind::Assign => String::from_str("Assign"),
        TokenKind::LeftParen => String::from_str("LeftParen"),
        TokenKind::RightParen => String::from_str("RightParen"),
        TokenKind::LeftBrace => String::from_str("LeftBrace"),
        TokenKind::RightBrace => String::from_str("RightBrace"),
        TokenKind::LeftBracket => String::from_str("LeftBracket"),
        TokenKind::RightBracket => String::from_str("RightBracket"),
        TokenKind::Comma => String::from_str("Comma"),
        TokenKind::Semicolon => String::from_str("Semicolon"),
        TokenKind::Colon => String::from_str("Colon"),
        TokenKind::Dot => String::from_str("Dot"),
        TokenKind::Arrow => String::from_str("Arrow"),
        TokenKind::Eof => String::from_str("Eof"),
        TokenKind::IntLiteral(v) => {
            let mut out = chars_of("IntLiteral(");
            let d = decimal_text_u64(*v);
            let mut dc = chars_of(d.as_str());
            out.append(&mut dc);
            let mut close = chars_of(")");
            out.append(&mut close);
            string_of(out.as_slice())
        },
        TokenKind::StringLiteral(t) => with_quoted("StringLiteral(", t),
        TokenKind::Identifier(t) => with_quoted("Identifier(", t),
    }
}

// ── The parser ─────────────────────────────────────────────────────────────

/// The expression a literal token stands for.
pub open spec fn literal_view(k: TokenKindView) -> Option<ExprV> {
    match k {
        TokenKindView::IntLiteral(v) => Some(ExprV::IntLiteral(v)),
        TokenKindView::True => Some(ExprV::BoolLiteral(true)),
        TokenKindView::False => Some(ExprV::BoolLiteral(false)),
        TokenKindView::StringLiteral(s) => Some(ExprV::StringLiteral(s)),
        _ => None,
    }
}

/// The abstract value of an expression result.
pub open spec fn expr_res(r: Result<Expression, ParseError>) -> Result<ExprV, ParseErrV> {
    match r {
        Ok(e) => Ok(expr_view(e)),
        Err(e) => Err(e@),
    }
}

/// The abstract value of an argument-list result.
pub open spec fn exprs_res(r: Result<Vec<Expression>, ParseError>) -> Result<Seq<ExprV>, ParseErrV> {
    match r {
        Ok(es) => Ok(exprs_view(es@)),
        Err(e) => Err(e@),
    }
}

/// The abstract value of a type result.
pub open spec fn type_res(r: Result<Type, ParseError>) -> Result<TypeV, ParseErrV> {
    match r {
        Ok(t) => Ok(type_view(t)),
        Err(e) => Err(e@),
    }
}

/// The abstract value of a statement result.
pub open spec fn stmt_res(r: Result<Statement, ParseError>) -> Result<StmtV, ParseErrV> {
    match r {
        Ok(st) => Ok(stmt_view(st)),
        Err(e) => Err(e@),
    }
}

/// The abstract value of a statement-list result.
pub open spec fn stmts_res(r: Result<Vec<Statement>, ParseError>) -> Result<Seq<StmtV>, ParseErrV> {
    match r {
        Ok(ss) => Ok(stmts_view(ss@)),
        Err(e) => Err(e@),
    }
}

/// The abstract value of a parameter-list result.
pub open spec fn params_res(r: Result<Vec<Parameter>, ParseError>) -> Result<Seq<DeclV>, ParseErrV> {
    match r {
        Ok(ps) => Ok(params_view(ps@)),
        Err(e) => Err(e@),
    }
}

/// The abstract value of a state-variable result.
pub open spec fn state_var_res(r: Result<StateVar, ParseError>) -> Result<DeclV, ParseErrV> {
    match r {
        Ok(v) => Ok(DeclV { name: v.name@, ty: type_view(v.ty) }),
        Err(e) => Err(e@),
    }
}

/// The abstract value of an optional-type result.
pub open spec fn opt_type_res(r: Result<Option<Type>, ParseError>) -> Result<Option<TypeV>, ParseErrV> {
    match r {
        Ok(Some(t)) => Ok(Some(type_view(t))),
        Ok(None) => Ok(None),
        Err(e) => Err(e@),
    }
}

/// The abstract value of a function result.
pub open spec fn function_res(r: Result<Function, ParseError>) -> Result<FunctionV, ParseErrV> {
    match r {
        Ok(f) => Ok(function_view(f)),
        Err(e) => Err(e@),
    }
}

/// The abstract value of a contract result.
pub open spec fn contract_res(r: Result<Contract, ParseError>) -> Result<ContractV, ParseErrV> {
    match r {
        Ok(c) => Ok(contract_view(c)),
        Err(e) => Err(e@),
    }
}

/// The abstract value of a name result.
pub open spec fn name_res(r: Result<String, ParseError>) -> Result<Seq<char>, ParseErrV> {
    match r {
        Ok(s) => Ok(s@),
        Err(e) => Err(e@),
    }
}

/// The abstract value of a result without a value.
pub open spec fn unit_res(r: Result<(), ParseError>, end: int) -> Result<int, ParseErrV> {
    match r {
        Ok(_) => Ok(end),
        Err(e) => Err(e@),
    }
}

/// ThunderScript parser.
pub struct Parser {
    tokens: Vec<Token>,
    pos: usize,
}

impl Parser {
    /// The token stream being parsed.
    #[verifier::opaque]
    pub closed spec fn toks(&self) -> Seq<TokenView> {
        tokens_view(self.tokens@)
    }

    /// The index of the next token.
    pub closed spec fn position(&self) -> int {
        self.pos as int
    }

    /// The stream ends with `Eof` and the parser has not moved past it.
    #[verifier::opaque]
    pub closed spec fn wf(&self) -> bool {
        stream_ok(self.toks()) && self.pos < self.tokens@.len()
    }

    /// Same tokens, not moved backwards, still well formed.
    pub open spec fn moved_on(&self, from: Parser) -> bool {
        &&& self.wf()
        &&& self.toks() == from.toks()
        &&& from.position() <= self.position()
        &&& self.position() < self.toks().len()
    }

    /// Create a new parser from a token stream.
    pub fn new(tokens: Vec<Token>) -> (p: Self)
        requires
            stream_ok(tokens_view(tokens@)),
        ensures
            p.wf(),
            p.toks() == tokens_view(tokens@),
            p.position() == 0,
            p.position() < p.toks().len(),
    {
        reveal(Parser::toks);
        reveal(Parser::wf);
        Parser { tokens, pos: 0 }
    }

    proof fn lemma_bound(&self)
        requires
            self.wf(),
        ensures
            0 <= self.position() < self.toks().len(),
    {
        reveal(Parser::toks);
        reveal(Parser::wf);
    }

    proof fn lemma_view(&self)
        requires
            self.wf(),
        ensures
            self.toks().len() == self.tokens@.len(),
            self.toks()[self.pos as int] == self.tokens@[self.pos as int]@,
            tok_at(self.toks(), self.pos as int) == self.tokens@[self.pos as int]@,
    {
        reveal(Parser::toks);
        reveal(Parser::wf);
    }

    /// Which variant the current token is.
    fn peek_tag(&self) -> (t: u8)
        requires
            self.wf(),
        ensures
            t == kind_tag(tok_at(self.toks(), self.position()).kind),
    {
        reveal(Parser::toks);
        reveal(Parser::wf);
        proof { self.lemma_view(); }
        self.tokens[self.pos].kind.tag()
    }

    fn check(&self, kind: &TokenKind) -> (b: bool)
        requires
            self.wf(),
        ensures
            b == at_kind(self.toks(), self.position(), kind@),
    {
        self.peek_tag() == kind.tag()
    }

    /// Step over the current token, which is not the end of input.
    fn advance(&mut self)
        requires
            old(self).wf(),
            kind_tag(tok_at(old(self).toks(), old(self).position()).kind) != 47,
        ensures
            final(self).wf(),
            final(self).toks() == old(self).toks(),
            final(self).position() == next_pos(old(self).toks(), old(self).position()),
            final(self).position() == old(self).position() + 1,
            final(self).position() < final(self).toks().len(),
    {
        reveal(Parser::toks);
        reveal(Parser::wf);
        proof {
            self.lemma_view();
            assert(self.toks().last() == self.toks()[self.toks().len() - 1]);
            assert(self.toks()[self.pos as int].kind != TokenKindView::Eof);
            assert(self.pos as int != self.toks().len() - 1);
        }
        let n = self.tokens.len();
        assert(self.pos + 1 < n);
        self.pos = self.pos + 1;
    }

    fn match_token(&mut self, kind: TokenKind) -> (b: bool)
        requires
            old(self).wf(),
            kind_tag(kind@) != 47,
        ensures
            final(self).wf(),
            final(self).toks() == old(self).toks(),
            b == at_kind(old(self).toks(), old(self).position(), kind@),
            b ==> final(self).position() == next_pos(old(self).toks(), old(self).position()),
            b ==> final(self).position() == old(self).position() + 1,
            !b ==> final(self).position() == old(self).position(),
            final(self).position() < final(self).toks().len(),
    {
        proof { self.lemma_bound(); }
        if self.check(&kind) {
            self.advance();
            true
        } else {
            false
        }
    }

    /// An error at the current token.
    fn error(&self, msg: &str) -> (e: ParseError)
        requires
            self.wf(),
        ensures
            e@ == err_here(self.toks(), self.position(), msg@),
    {
        reveal(Parser::toks);
        reveal(Parser::wf);
        proof { self.lemma_view(); }
        let tok = &self.tokens[self.pos];
        ParseError { message: String::from_str(msg), line: tok.line, column: tok.column }
    }

    /// An error naming the current token.
    fn error_at(&self, msg: &str) -> (e: ParseError)
        requires
            self.wf(),
        ensures
            e@ == err_token(tok_at(self.toks(), self.position()), msg@),
    {
        reveal(Parser::toks);
        reveal(Parser::wf);
        proof { self.lemma_view(); }
        let tok = &self.tokens[self.pos];
        let mut message = String::from_str(msg);
        message.append(" (got '");
        message.append(tok.lexeme.as_str());
        message.append("')");
        ParseError { message, line: tok.line, column: tok.column }
    }

    fn expect(&mut self, expected: TokenKind) -> (r: Result<(), ParseError>)
        requires
            old(self).wf(),
            kind_tag(expected@) != 47,
        ensures
            final(self).moved_on(*old(self)),
            p_expect(old(self).toks(), old(self).position(), expected@) == unit_res(r, final(self).position()),
            r is Ok ==> final(self).position() == old(self).position() + 1,
    {
        reveal(Parser::toks);
        reveal(Parser::wf);
        if self.check(&expected) {
            self.advance();
            Ok(())
        } else {
            proof { self.lemma_view(); }
            let mut msg = String::from_str("expected ");
            let want = kind_name_text(&expected);
            msg.append(want.as_str());
            msg.append(", got ");
            let got = kind_name_text(&self.tokens[self.pos].kind);
            msg.append(got.as_str());
            Err(self.error(msg.as_str()))
        }
    }

    fn expect_identifier(&mut self) -> (r: Result<String, ParseError>)
        requires
            old(self).wf(),
        ensures
            final(self).moved_on(*old(self)),
            p_ident(old(self).toks(), old(self).position()) == outcome(name_res(r), final(self).position()),
            r is Ok ==> final(self).position() == old(self).position() + 1,
    {
        reveal(Parser::toks);
        reveal(Parser::wf);
        proof { self.lemma_view(); }
        let name = match &self.tokens[self.pos].kind {
            TokenKind::Identifier(name) => name.clone(),
            _ => {
                return Err(self.error_at("expected identifier"));
            },
        };
        self.advance();
        Ok(name)
    }

    fn expect_string(&mut self) -> (r: Result<String, ParseError>)
        requires
            old(self).wf(),
        ensures
            final(self).moved_on(*old(self)),
            p_string(old(self).toks(), old(self).position()) == outcome(name_res(r), final(self).position()),
    {
        reveal(Parser::toks);
        reveal(Parser::wf);
        proof { self.lemma_view(); }
        let text = match &self.tokens[self.pos].kind {
            TokenKind::StringLiteral(text) => text.clone(),
            _ => {
                return Err(self.error_at("expected string literal"));
            },
        };
        self.advance();
        Ok(text)
    }
}


/// The two properties every expression parser keeps: it moves forward, and
/// it consumes at least one token when it succeeds.
pub open spec fn expr_step(before: Parser, after: Parser, r: Result<Expression, ParseError>) -> bool {
    &&& after.moved_on(before)
    &&& r is Ok ==> before.position() < after.position()
}

impl Parser {
    fn parse_expression(&mut self) -> (r: Result<Expression, ParseError>)
        requires
            old(self).wf(),
        ensures
            expr_step(*old(self), *final(self), r),
            p_expression(old(self).toks(), old(self).position()) == outcome(expr_res(r), final(self).position()),
        decreases old(self).toks().len() - old(self).position(), 20int,
    {
        reveal(p_expression);
        reveal(p_or);
        self.parse_or()
    }

    fn parse_or(&mut self) -> (r: Result<Expression, ParseError>)
        requires
            old(self).wf(),
        ensures
            expr_step(*old(self), *final(self), r),
            p_or(old(self).toks(), old(self).position()) == outcome(expr_res(r), final(self).position()),
        decreases old(self).toks().len() - old(self).position(), 19int,
    {
        reveal(p_or);
        reveal(p_or_tail);
        reveal(p_and);
        let ghost toks = self.toks();
        let ghost pos = self.position();
        let mut left = match self.parse_and() {
            Ok(v) => v,
            Err(e) => {
                return Err(e);
            },
        };
        loop
            invariant
                self.wf(),
                self.toks() == toks,
                toks == old(self).toks(),
                pos == old(self).position(),
                pos < self.position(),
                self.position() < toks.len(),
                p_or(toks, pos) == p_or_tail(toks, self.position(), expr_view(left)),
            decreases toks.len() - self.position(),
        {
            reveal(p_or);
            reveal(p_or_tail);
            reveal(p_and);
            if !self.match_token(TokenKind::Or) {
                return Ok(left);
            }
            let right = match self.parse_and() {
            Ok(v) => v,
            Err(e) => {
                return Err(e);
            },
        };
            left = Expression::BinaryOp { left: Box::new(left), op: BinaryOperator::Or, right: Box::new(right) };
        }
    }

    fn parse_and(&mut self) -> (r: Result<Expression, ParseError>)
        requires
            old(self).wf(),
        ensures
            expr_step(*old(self), *final(self), r),
            p_and(old(self).toks(), old(self).position()) == outcome(expr_res(r), final(self).position()),
        decreases old(self).toks().len() - old(self).position(), 17int,
    {
        reveal(p_and);
        reveal(p_and_tail);
        reveal(p_equality);
        let ghost toks = self.toks();
        let ghost pos = self.position();
        let mut left = match self.parse_equality() {
            Ok(v) => v,
            Err(e) => {
                return Err(e);
            },
        };
        loop
            invariant
                self.wf(),
                self.toks() == toks,
                toks == old(self).toks(),
                pos == old(self).position(),
                pos < self.position(),
                self.position() < toks.len(),
                p_and(toks, pos) == p_and_tail(toks, self.position(), expr_view(left)),
            decreases toks.len() - self.position(),
        {
            reveal(p_and);
            reveal(p_and_tail);
            reveal(p_equality);
            if !self.match_token(TokenKind::And) {
                return Ok(left);
            }
            let right = match self.parse_equality() {
            Ok(v) => v,
            Err(e) => {
                return Err(e);
            },
        };
            left = Expression::BinaryOp { left: Box::new(left), op: BinaryOperator::And, right: Box::new(right) };
        }
    }

    /// The equality operator at the current token, if any.
    fn equality_op_here(&self) -> (o: Option<BinaryOperator>)
        requires
            self.wf(),
        ensures
            o == equality_op(tok_at(self.toks(), self.position()).kind),
            o is Some ==> kind_tag(tok_at(self.toks(), self.position()).kind) != 47,
    {
        reveal(Parser::toks);
        reveal(Parser::wf);
        proof { self.lemma_view(); }
        match &self.tokens[self.pos].kind {
            TokenKind::Eq => Some(BinaryOperator::Eq),
            TokenKind::Neq => Some(BinaryOperator::Neq),
            _ => None,
        }
    }

    /// The comparison operator at the current token, if any.
    fn comparison_op_here(&self) -> (o: Option<BinaryOperator>)
        requires
            self.wf(),
        ensures
            o == comparison_op(tok_at(self.toks(), self.position()).kind),
            o is Some ==> kind_tag(tok_at(self.toks(), self.position()).kind) != 47,
    {
        reveal(Parser::toks);
        reveal(Parser::wf);
        proof { self.lemma_view(); }
        match &self.tokens[self.pos].kind {
            TokenKind::Lt => Some(BinaryOperator::Lt),
            TokenKind::Gt => Some(BinaryOperator::Gt),
            TokenKind::Lte => Some(BinaryOperator::Lte),
            TokenKind::Gte => Some(BinaryOperator::Gte),
            _ => None,
        }
    }

    /// The additive operator at the current token, if any.
    fn additive_op_here(&self) -> (o: Option<BinaryOperator>)
        requires
            self.wf(),
        ensures
            o == additive_op(tok_at(self.toks(), self.position()).kind),
            o is Some ==> kind_tag(tok_at(self.toks(), self.position()).kind) != 47,
    {
        reveal(Parser::toks);
        reveal(Parser::wf);
        proof { self.lemma_view(); }
        match &self.tokens[self.pos].kind {
            TokenKind::Plus => Some(BinaryOperator::Add),
            TokenKind::Minus => Some(BinaryOperator::Sub),
            _ => None,
        }
    }

    /// The multiplicative operator at the current token, if any.
    fn multiplicative_op_here(&self) -> (o: Option<BinaryOperator>)
        requires
            self.wf(),
        ensures
            o == multiplicative_op(tok_at(self.toks(), self.position()).kind),
            o is Some ==> kind_tag(tok_at(self.toks(), self.position()).kind) != 47,
    {
        reveal(Parser::toks);
        reveal(Parser::wf);
        proof { self.lemma_view(); }
        match &self.tokens[self.pos].kind {
            TokenKind::Star => Some(BinaryOperator::Mul),
            TokenKind::Slash => Some(BinaryOperator::Div),
            TokenKind::Percent => Some(BinaryOperator::Mod),
            _ => None,
        }
    }

    fn parse_equality(&mut self) -> (r: Result<Expression, ParseError>)
        requires
            old(self).wf(),
        ensures
            expr_step(*old(self), *final(self), r),
            p_equality(old(self).toks(), old(self).position()) == outcome(expr_res(r), final(self).position()),
        decreases old(self).toks().len() - old(self).position(), 15int,
    {
        reveal(p_equality);
        reveal(p_equality_tail);
        reveal(p_comparison);
        let ghost toks = self.toks();
        let ghost pos = self.position();
        let mut left = match self.parse_comparison() {
            Ok(v) => v,
            Err(e) => {
                return Err(e);
            },
        };
        loop
            invariant
                self.wf(),
                self.toks() == toks,
                toks == old(self).toks(),
                pos == old(self).position(),
                pos < self.position(),
                self.position() < toks.len(),
                p_equality(toks, pos) == p_equality_tail(toks, self.position(), expr_view(left)),
            decreases toks.len() - self.position(),
        {
            reveal(p_equality);
            reveal(p_equality_tail);
            reveal(p_comparison);
            let op = match self.equality_op_here() {
                Some(op) => op,
                None => {
                    return Ok(left);
                },
            };
            self.advance();
            let right = match self.parse_comparison() {
            Ok(v) => v,
            Err(e) => {
                return Err(e);
            },
        };
            left = Expression::BinaryOp { left: Box::new(left), op, right: Box::new(right) };
        }
    }

    fn parse_comparison(&mut self) -> (r: Result<Expression, ParseError>)
        requires
            old(self).wf(),
        ensures
            expr_step(*old(self), *final(self), r),
            p_comparison(old(self).toks(), old(self).position()) == outcome(expr_res(r), final(self).position()),
        decreases old(self).toks().len() - old(self).position(), 13int,
    {
        reveal(p_comparison);
        reveal(p_comparison_tail);
        reveal(p_additive);
        let ghost toks = self.toks();
        let ghost pos = self.position();
        let mut left = match self.parse_additive() {
            Ok(v) => v,
            Err(e) => {
                return Err(e);
            },
        };
        loop
            invariant
                self.wf(),
                self.toks() == toks,
                toks == old(self).toks(),
                pos == old(self).position(),
                pos < self.position(),
                self.position() < toks.len(),
                p_comparison(toks, pos) == p_comparison_tail(toks, self.position(), expr_view(left)),
            decreases toks.len() - self.position(),
        {
            reveal(p_comparison);
            reveal(p_comparison_tail);
            reveal(p_additive);
            let op = match self.comparison_op_here() {
                Some(op) => op,
                None => {
                    return Ok(left);
                },
            };
            self.advance();
            let right = match self.parse_additive() {
            Ok(v) => v,
            Err(e) => {
                return Err(e);
            },
        };
            left = Expression::BinaryOp { left: Box::new(left), op, right: Box::new(right) };
        }
    }

    fn parse_additive(&mut self) -> (r: Result<Expression, ParseError>)
        requires
            old(self).wf(),
        ensures
            expr_step(*old(self), *final(self), r),
            p_additive(old(self).toks(), old(self).position()) == outcome(expr_res(r), final(self).position()),
        decreases old(self).toks().len() - old(self).position(), 11int,
    {
        reveal(p_additive);
        reveal(p_additive_tail);
        reveal(p_multiplicative);
        let ghost toks = self.toks();
        let ghost pos = self.position();
        let mut left = match self.parse_multiplicative() {
            Ok(v) => v,
            Err(e) => {
                return Err(e);
            },
        };
        loop
            invariant
                self.wf(),
                self.toks() == toks,
                toks == old(self).toks(),
                pos == old(self).position(),
                pos < self.position(),
                self.position() < toks.len(),
                p_additive(toks, pos) == p_additive_tail(toks, self.position(), expr_view(left)),
            decreases toks.len() - self.position(),
        {
            reveal(p_additive);
            reveal(p_additive_tail);
            reveal(p_multiplicative);
            let op = match self.additive_op_here() {
                Some(op) => op,
                None => {
                    return Ok(left);
                },
            };
            self.advance();
            let right = match self.parse_multiplicative() {
            Ok(v) => v,
            Err(e) => {
                return Err(e);
            },
        };
            left = Expression::BinaryOp { left: Box::new(left), op, right: Box::new(right) };
        }
    }

    fn parse_multiplicative(&mut self) -> (r: Result<Expression, ParseError>)
        requires
            old(self).wf(),
        ensures
            expr_step(*old(self), *final(self), r),
            p_multiplicative(old(self).toks(), old(self).position()) == outcome(expr_res(r), final(self).position()),
        decreases old(self).toks().len() - old(self).position(), 9int,
    {
        reveal(p_multiplicative);
        reveal(p_multiplicative_tail);
        reveal(p_unary);
        let ghost toks = self.toks();
        let ghost pos = self.position();
        let mut left = match self.parse_unary() {
            Ok(v) => v,
            Err(e) => {
                return Err(e);
            },
        };
        loop
            invariant
                self.wf(),
                self.toks() == toks,
                toks == old(self).toks(),
                pos == old(self).position(),
                pos < self.position(),
                self.position() < toks.len(),
                p_multiplicative(toks, pos) == p_multiplicative_tail(toks, self.position(), expr_view(left)),
            decreases toks.len() - self.position(),
        {
            reveal(p_multiplicative);
            reveal(p_multiplicative_tail);
            reveal(p_unary);
            let op = match self.multiplicative_op_here() {
                Some(op) => op,
                None => {
                    return Ok(left);
                },
            };
            self.advance();
            let right = match self.parse_unary() {
            Ok(v) => v,
            Err(e) => {
                return Err(e);
            },
        };
            left = Expression::BinaryOp { left: Box::new(left), op, right: Box::new(right) };
        }
    }

    fn parse_unary(&mut self) -> (r: Result<Expression, ParseError>)
        requires
            old(self).wf(),
        ensures
            expr_step(*old(self), *final(self), r),
            p_unary(old(self).toks(), old(self).position()) == outcome(expr_res(r), final(self).position()),
        decreases old(self).toks().len() - old(self).position(), 7int,
    {
        reveal(p_unary);
        reveal(p_primary);
        if self.match_token(TokenKind::Not) {
            let operand = match self.parse_unary() {
            Ok(v) => v,
            Err(e) => {
                return Err(e);
            },
        };
            return Ok(Expression::UnaryOp { op: UnaryOperator::Not, operand: Box::new(operand) });
        }
        if self.match_token(TokenKind::Minus) {
            let operand = match self.parse_unary() {
            Ok(v) => v,
            Err(e) => {
                return Err(e);
            },
        };
            return Ok(Expression::UnaryOp { op: UnaryOperator::Negate, operand: Box::new(operand) });
        }
        self.parse_primary()
    }

    /// The literal at the current token, if it is one.
    fn literal_here(&self) -> (o: Option<Expression>)
        requires
            self.wf(),
        ensures
            match o {
                Some(e) => literal_view(tok_at(self.toks(), self.position()).kind) == Some(expr_view(e)),
                None => literal_view(tok_at(self.toks(), self.position()).kind) is None,
            },
    {
        reveal(Parser::toks);
        reveal(Parser::wf);
        proof { self.lemma_view(); }
        match &self.tokens[self.pos].kind {
            TokenKind::IntLiteral(v) => Some(Expression::IntLiteral(*v)),
            TokenKind::True => Some(Expression::BoolLiteral(true)),
            TokenKind::False => Some(Expression::BoolLiteral(false)),
            TokenKind::StringLiteral(text) => Some(Expression::StringLiteral(text.clone())),
            _ => None,
        }
    }

    fn parse_primary(&mut self) -> (r: Result<Expression, ParseError>)
        requires
            old(self).wf(),
        ensures
            expr_step(*old(self), *final(self), r),
            p_primary(old(self).toks(), old(self).position()) == outcome(expr_res(r), final(self).position()),
        decreases old(self).toks().len() - old(self).position(), 6int,
    {
        reveal(p_primary);
        reveal(p_expression);
        proof { self.lemma_bound(); }
        reveal(p_call_args);
        proof { self.lemma_bound(); }
        let ghost toks = self.toks();
        let ghost pos = self.position();
        let tag = self.peek_tag();
        if let Some(e) = self.literal_here() {
            self.advance();
            Ok(e)
        } else if tag == 10 {
            self.advance();
            if let Err(e) = self.expect(TokenKind::Dot) {
                return Err(e);
            }
            let field = match self.expect_identifier() {
                Ok(v) => v,
                Err(e) => {
                    return Err(e);
                },
            };
            if self.match_token(TokenKind::LeftBracket) {
                let key = match self.parse_expression() {
                    Ok(v) => v,
                    Err(e) => {
                        return Err(e);
                    },
                };
                if let Err(e) = self.expect(TokenKind::RightBracket) {
                    return Err(e);
                }
                Ok(Expression::StateMapAccess(field, Box::new(key)))
            } else {
                Ok(Expression::StateAccess(field))
            }
        } else if tag == 20 {
            let name = match self.expect_identifier() {
                Ok(v) => v,
                Err(e) => {
                    return Err(e);
                },
            };
            if self.match_token(TokenKind::LeftParen) {
                let args = match self.parse_call_args() {
                    Ok(v) => v,
                    Err(e) => {
                        return Err(e);
                    },
                };
                Ok(Expression::FunctionCall { name, args })
            } else {
                Ok(Expression::Variable(name))
            }
        } else if tag == 36 {
            self.advance();
            let e = match self.parse_expression() {
                Ok(v) => v,
                Err(e) => {
                    return Err(e);
                },
            };
            if let Err(e) = self.expect(TokenKind::RightParen) {
                return Err(e);
            }
            Ok(e)
        } else {
            Err(self.error_at("expected expression"))
        }
    }

    /// A parenthesised argument list, from just after `(` to just after `)`.
    fn parse_call_args(&mut self) -> (r: Result<Vec<Expression>, ParseError>)
        requires
            old(self).wf(),
        ensures
            final(self).moved_on(*old(self)),
            r is Ok ==> old(self).position() < final(self).position(),
            p_call_args(old(self).toks(), old(self).position()) == outcome(exprs_res(r), final(self).position()),
        decreases old(self).toks().len() - old(self).position(), 22int,
    {
        proof { self.lemma_bound(); }
        reveal(p_call_args);
        reveal(p_args);
        reveal(p_expression);
        let ghost toks = self.toks();
        let ghost pos = self.position();
        let mut args: Vec<Expression> = Vec::new();
        if self.check(&TokenKind::RightParen) {
            if let Err(e) = self.expect(TokenKind::RightParen) {
            return Err(e);
        }
            return Ok(args);
        }
        loop
            invariant
                self.wf(),
                self.toks() == toks,
                toks == old(self).toks(),
                pos == old(self).position(),
                pos <= self.position(),
                self.position() < toks.len(),
                p_call_args(toks, pos) == close_args(toks, p_args(toks, self.position(), exprs_view(args@))),
            decreases toks.len() - self.position(),
        {
            proof { self.lemma_bound(); }
        reveal(p_call_args);
            reveal(p_args);
            reveal(p_expression);
            let ghost before = args@;
            let e = match self.parse_expression() {
            Ok(v) => v,
            Err(e) => {
                return Err(e);
            },
        };
            args.push(e);
            proof {
                assert(args@.drop_last() =~= before);
            }
            if !self.match_token(TokenKind::Comma) {
                if let Err(e) = self.expect(TokenKind::RightParen) {
            return Err(e);
        }
                return Ok(args);
            }
        }
    }
}


/// A parser that moved on, and consumed a token if it succeeded.
pub open spec fn consumed<T>(before: Parser, after: Parser, r: Result<T, ParseError>) -> bool {
    &&& after.moved_on(before)
    &&& r is Ok ==> before.position() < after.position()
}

impl Parser {
    // ── Types ──────────────────────────────────────────────────────────

    fn parse_type(&mut self) -> (r: Result<Type, ParseError>)
        requires
            old(self).wf(),
        ensures
            consumed(*old(self), *final(self), r),
            p_type(old(self).toks(), old(self).position()) == outcome(type_res(r), final(self).position()),
        decreases old(self).toks().len() - old(self).position(),
    {
        reveal(p_type);
        proof { self.lemma_bound(); }
        let tag = self.peek_tag();
        if tag == 13 {
            self.advance();
            Ok(Type::U64)
        } else if tag == 14 {
            self.advance();
            Ok(Type::Bool)
        } else if tag == 15 {
            self.advance();
            Ok(Type::Address)
        } else if tag == 16 {
            self.advance();
            Ok(Type::String)
        } else if tag == 17 {
            self.advance();
            if let Err(e) = self.expect(TokenKind::Lt) {
                return Err(e);
            }
            let key_type = match self.parse_type() {
                Ok(v) => v,
                Err(e) => {
                    return Err(e);
                },
            };
            if let Err(e) = self.expect(TokenKind::Comma) {
                return Err(e);
            }
            let value_type = match self.parse_type() {
                Ok(v) => v,
                Err(e) => {
                    return Err(e);
                },
            };
            if let Err(e) = self.expect(TokenKind::Gt) {
                return Err(e);
            }
            Ok(Type::Mapping(Box::new(key_type), Box::new(value_type)))
        } else {
            Err(self.error_at("expected type"))
        }
    }

    // ── Statements ─────────────────────────────────────────────────────

    /// Statements up to a closing brace or the end of input.
    fn parse_block(&mut self) -> (r: Result<Vec<Statement>, ParseError>)
        requires
            old(self).wf(),
        ensures
            final(self).moved_on(*old(self)),
            p_block(old(self).toks(), old(self).position(), Seq::empty()) == outcome(stmts_res(r), final(self).position()),
        decreases old(self).toks().len() - old(self).position(), 32int,
    {
        proof { self.lemma_bound(); }
        let ghost toks = self.toks();
        let ghost pos = self.position();
        let mut stmts: Vec<Statement> = Vec::new();
        loop
            invariant
                self.wf(),
                self.toks() == toks,
                toks == old(self).toks(),
                pos == old(self).position(),
                pos <= self.position(),
                self.position() < toks.len(),
                p_block(toks, pos, Seq::empty()) == p_block(toks, self.position(), stmts_view(stmts@)),
            decreases toks.len() - self.position(),
        {
            reveal(p_block);
            reveal(p_statement);
            if self.check(&TokenKind::RightBrace) || self.check(&TokenKind::Eof) {
                return Ok(stmts);
            }
            let ghost before = stmts@;
            let st = match self.parse_statement() {
                Ok(v) => v,
                Err(e) => {
                    return Err(e);
                },
            };
            stmts.push(st);
            proof {
                assert(stmts@.drop_last() =~= before);
            }
        }
    }

    /// `{ statements }`, from the opening brace.
    fn parse_braced(&mut self) -> (r: Result<Vec<Statement>, ParseError>)
        requires
            old(self).wf(),
        ensures
            consumed(*old(self), *final(self), r),
            p_braced(old(self).toks(), old(self).position()) == outcome(stmts_res(r), final(self).position()),
        decreases old(self).toks().len() - old(self).position(), 33int,
    {
        reveal(p_braced);
        reveal(p_block);
        if let Err(e) = self.expect(TokenKind::LeftBrace) {
            return Err(e);
        }
        let body = match self.parse_block() {
            Ok(v) => v,
            Err(e) => {
                return Err(e);
            },
        };
        if let Err(e) = self.expect(TokenKind::RightBrace) {
            return Err(e);
        }
        Ok(body)
    }

    fn parse_statement(&mut self) -> (r: Result<Statement, ParseError>)
        requires
            old(self).wf(),
        ensures
            consumed(*old(self), *final(self), r),
            p_statement(old(self).toks(), old(self).position()) == outcome(stmt_res(r), final(self).position()),
        decreases old(self).toks().len() - old(self).position(), 31int,
    {
        reveal(p_statement);
        reveal(p_if);
        reveal(p_while);
        reveal(p_expr_semi);
        if self.check(&TokenKind::Let) {
            self.parse_let()
        } else if self.check(&TokenKind::If) {
            self.parse_if()
        } else if self.check(&TokenKind::While) {
            self.parse_while()
        } else if self.check(&TokenKind::Return) {
            self.parse_return()
        } else if self.check(&TokenKind::Require) {
            self.parse_require()
        } else if self.check(&TokenKind::Emit) {
            self.parse_emit()
        } else if self.check(&TokenKind::Self_) {
            self.parse_self_statement()
        } else if self.peek_tag() == 20 {
            self.parse_assign_or_expression()
        } else {
            match self.parse_expr_semi() {
                Ok(e) => Ok(Statement::Expression(e)),
                Err(e) => Err(e),
            }
        }
    }

    /// An expression followed by a semicolon.
    fn parse_expr_semi(&mut self) -> (r: Result<Expression, ParseError>)
        requires
            old(self).wf(),
        ensures
            consumed(*old(self), *final(self), r),
            p_expr_semi(old(self).toks(), old(self).position()) == outcome(expr_res(r), final(self).position()),
    {
        reveal(p_expr_semi);
        let value = match self.parse_expression() {
            Ok(v) => v,
            Err(e) => {
                return Err(e);
            },
        };
        if let Err(e) = self.expect(TokenKind::Semicolon) {
            return Err(e);
        }
        Ok(value)
    }

    fn parse_let(&mut self) -> (r: Result<Statement, ParseError>)
        requires
            old(self).wf(),
        ensures
            consumed(*old(self), *final(self), r),
            p_let(old(self).toks(), old(self).position()) == outcome(stmt_res(r), final(self).position()),
    {
        reveal(p_let);
        if let Err(e) = self.expect(TokenKind::Let) {
            return Err(e);
        }
        let name = match self.expect_identifier() {
            Ok(v) => v,
            Err(e) => {
                return Err(e);
            },
        };
        if let Err(e) = self.expect(TokenKind::Assign) {
            return Err(e);
        }
        let value = match self.parse_expr_semi() {
            Ok(v) => v,
            Err(e) => {
                return Err(e);
            },
        };
        Ok(Statement::Let { name, value })
    }

    /// `( expression )`, from the opening parenthesis.
    fn parse_condition(&mut self) -> (r: Result<Expression, ParseError>)
        requires
            old(self).wf(),
        ensures
            consumed(*old(self), *final(self), r),
            p_condition(old(self).toks(), old(self).position()) == outcome(expr_res(r), final(self).position()),
    {
        reveal(p_condition);
        if let Err(e) = self.expect(TokenKind::LeftParen) {
            return Err(e);
        }
        let condition = match self.parse_expression() {
            Ok(v) => v,
            Err(e) => {
                return Err(e);
            },
        };
        if let Err(e) = self.expect(TokenKind::RightParen) {
            return Err(e);
        }
        Ok(condition)
    }

    fn parse_if(&mut self) -> (r: Result<Statement, ParseError>)
        requires
            old(self).wf(),
        ensures
            consumed(*old(self), *final(self), r),
            p_if(old(self).toks(), old(self).position()) == outcome(stmt_res(r), final(self).position()),
        decreases old(self).toks().len() - old(self).position(), 30int,
    {
        reveal(p_if);
        reveal(p_braced);
        if let Err(e) = self.expect(TokenKind::If) {
            return Err(e);
        }
        let condition = match self.parse_condition() {
            Ok(v) => v,
            Err(e) => {
                return Err(e);
            },
        };
        let body = match self.parse_braced() {
            Ok(v) => v,
            Err(e) => {
                return Err(e);
            },
        };
        let else_body = if self.match_token(TokenKind::Else) {
            match self.parse_braced() {
                Ok(v) => v,
                Err(e) => {
                    return Err(e);
                },
            }
        } else {
            Vec::new()
        };
        Ok(Statement::If { condition, body, else_body })
    }

    fn parse_while(&mut self) -> (r: Result<Statement, ParseError>)
        requires
            old(self).wf(),
        ensures
            consumed(*old(self), *final(self), r),
            p_while(old(self).toks(), old(self).position()) == outcome(stmt_res(r), final(self).position()),
        decreases old(self).toks().len() - old(self).position(), 30int,
    {
        reveal(p_while);
        reveal(p_braced);
        if let Err(e) = self.expect(TokenKind::While) {
            return Err(e);
        }
        let condition = match self.parse_condition() {
            Ok(v) => v,
            Err(e) => {
                return Err(e);
            },
        };
        let body = match self.parse_braced() {
            Ok(v) => v,
            Err(e) => {
                return Err(e);
            },
        };
        Ok(Statement::While { condition, body })
    }

    fn parse_return(&mut self) -> (r: Result<Statement, ParseError>)
        requires
            old(self).wf(),
        ensures
            consumed(*old(self), *final(self), r),
            p_return(old(self).toks(), old(self).position()) == outcome(stmt_res(r), final(self).position()),
    {
        reveal(p_return);
        if let Err(e) = self.expect(TokenKind::Return) {
            return Err(e);
        }
        if self.check(&TokenKind::Semicolon) {
            if let Err(e) = self.expect(TokenKind::Semicolon) {
                return Err(e);
            }
            Ok(Statement::Return { value: None })
        } else {
            match self.parse_expr_semi() {
                Ok(v) => Ok(Statement::Return { value: Some(v) }),
                Err(e) => Err(e),
            }
        }
    }

    fn parse_require(&mut self) -> (r: Result<Statement, ParseError>)
        requires
            old(self).wf(),
        ensures
            consumed(*old(self), *final(self), r),
            p_require(old(self).toks(), old(self).position()) == outcome(stmt_res(r), final(self).position()),
    {
        reveal(p_require);
        if let Err(e) = self.expect(TokenKind::Require) {
            return Err(e);
        }
        if let Err(e) = self.expect(TokenKind::LeftParen) {
            return Err(e);
        }
        let condition = match self.parse_expression() {
            Ok(v) => v,
            Err(e) => {
                return Err(e);
            },
        };
        if let Err(e) = self.expect(TokenKind::Comma) {
            return Err(e);
        }
        let message = match self.expect_string() {
            Ok(v) => v,
            Err(e) => {
                return Err(e);
            },
        };
        if let Err(e) = self.expect(TokenKind::RightParen) {
            return Err(e);
        }
        if let Err(e) = self.expect(TokenKind::Semicolon) {
            return Err(e);
        }
        Ok(Statement::Require { condition, message })
    }

    fn parse_emit(&mut self) -> (r: Result<Statement, ParseError>)
        requires
            old(self).wf(),
        ensures
            consumed(*old(self), *final(self), r),
            p_emit(old(self).toks(), old(self).position()) == outcome(stmt_res(r), final(self).position()),
    {
        reveal(p_emit);
        if let Err(e) = self.expect(TokenKind::Emit) {
            return Err(e);
        }
        let event_name = match self.expect_identifier() {
            Ok(v) => v,
            Err(e) => {
                return Err(e);
            },
        };
        if let Err(e) = self.expect(TokenKind::LeftParen) {
            return Err(e);
        }
        let args = match self.parse_call_args() {
            Ok(v) => v,
            Err(e) => {
                return Err(e);
            },
        };
        if let Err(e) = self.expect(TokenKind::Semicolon) {
            return Err(e);
        }
        Ok(Statement::Emit { event_name, args })
    }

    fn parse_self_statement(&mut self) -> (r: Result<Statement, ParseError>)
        requires
            old(self).wf(),
        ensures
            consumed(*old(self), *final(self), r),
            p_self_statement(old(self).toks(), old(self).position()) == outcome(stmt_res(r), final(self).position()),
    {
        reveal(p_self_statement);
        if let Err(e) = self.expect(TokenKind::Self_) {
            return Err(e);
        }
        if let Err(e) = self.expect(TokenKind::Dot) {
            return Err(e);
        }
        let field = match self.expect_identifier() {
            Ok(v) => v,
            Err(e) => {
                return Err(e);
            },
        };
        if self.match_token(TokenKind::LeftBracket) {
            let key = match self.parse_expression() {
                Ok(v) => v,
                Err(e) => {
                    return Err(e);
                },
            };
            if let Err(e) = self.expect(TokenKind::RightBracket) {
                return Err(e);
            }
            if let Err(e) = self.expect(TokenKind::Assign) {
                return Err(e);
            }
            let value = match self.parse_expr_semi() {
                Ok(v) => v,
                Err(e) => {
                    return Err(e);
                },
            };
            Ok(Statement::Assign { target: AssignTarget::StateMapEntry(field, key), value })
        } else {
            if let Err(e) = self.expect(TokenKind::Assign) {
                return Err(e);
            }
            let value = match self.parse_expr_semi() {
                Ok(v) => v,
                Err(e) => {
                    return Err(e);
                },
            };
            Ok(Statement::Assign { target: AssignTarget::StateField(field), value })
        }
    }

    fn parse_assign_or_expression(&mut self) -> (r: Result<Statement, ParseError>)
        requires
            old(self).wf(),
        ensures
            consumed(*old(self), *final(self), r),
            p_assign_or_expression(old(self).toks(), old(self).position()) == outcome(stmt_res(r), final(self).position()),
    {
        reveal(p_assign_or_expression);
        let name = match self.expect_identifier() {
            Ok(v) => v,
            Err(e) => {
                return Err(e);
            },
        };
        if self.match_token(TokenKind::Assign) {
            let value = match self.parse_expr_semi() {
                Ok(v) => v,
                Err(e) => {
                    return Err(e);
                },
            };
            Ok(Statement::Assign { target: AssignTarget::Variable(name), value })
        } else if self.check(&TokenKind::LeftParen) {
            if let Err(e) = self.expect(TokenKind::LeftParen) {
                return Err(e);
            }
            let args = match self.parse_call_args() {
                Ok(v) => v,
                Err(e) => {
                    return Err(e);
                },
            };
            if let Err(e) = self.expect(TokenKind::Semicolon) {
                return Err(e);
            }
            Ok(Statement::Expression(Expression::FunctionCall { name, args }))
        } else {
            Err(self.error("expected '=' or '(' after identifier"))
        }
    }
}


impl Parser {
    // ── Declarations ───────────────────────────────────────────────────

    /// `name: type` pairs separated by commas (at least one).
    fn parse_params(&mut self) -> (r: Result<Vec<Parameter>, ParseError>)
        requires
            old(self).wf(),
        ensures
            consumed(*old(self), *final(self), r),
            p_params(old(self).toks(), old(self).position(), Seq::empty()) == outcome(params_res(r), final(self).position()),
    {
        proof { self.lemma_bound(); }
        let ghost toks = self.toks();
        let ghost pos = self.position();
        let mut params: Vec<Parameter> = Vec::new();
        proof {
            assert(params_view(params@) =~= Seq::<DeclV>::empty());
        }
        loop
            invariant
                self.wf(),
                self.toks() == toks,
                toks == old(self).toks(),
                pos == old(self).position(),
                pos <= self.position(),
                self.position() < toks.len(),
                p_params(toks, pos, Seq::empty()) == p_params(toks, self.position(), params_view(params@)),
            decreases toks.len() - self.position(),
        {
            reveal(p_params);
            let name = match self.expect_identifier() {
                Ok(v) => v,
                Err(e) => {
                    return Err(e);
                },
            };
            if let Err(e) = self.expect(TokenKind::Colon) {
                return Err(e);
            }
            let ty = match self.parse_type() {
                Ok(v) => v,
                Err(e) => {
                    return Err(e);
                },
            };
            let ghost before = params@;
            params.push(Parameter { name, ty });
            proof {
                assert(params_view(params@) =~= params_view(before).push(
                    DeclV { name: params@.last().name@, ty: type_view(params@.last().ty) },
                ));
            }
            if !self.match_token(TokenKind::Comma) {
                return Ok(params);
            }
        }
    }

    fn parse_state_var(&mut self) -> (r: Result<StateVar, ParseError>)
        requires
            old(self).wf(),
        ensures
            consumed(*old(self), *final(self), r),
            p_state_var(old(self).toks(), old(self).position()) == outcome(state_var_res(r), final(self).position()),
    {
        reveal(p_state_var);
        if let Err(e) = self.expect(TokenKind::State) {
            return Err(e);
        }
        let name = match self.expect_identifier() {
            Ok(v) => v,
            Err(e) => {
                return Err(e);
            },
        };
        if let Err(e) = self.expect(TokenKind::Colon) {
            return Err(e);
        }
        let ty = match self.parse_type() {
            Ok(v) => v,
            Err(e) => {
                return Err(e);
            },
        };
        if let Err(e) = self.expect(TokenKind::Semicolon) {
            return Err(e);
        }
        Ok(StateVar { name, ty })
    }

    /// The return type after the parameter list, if an arrow follows.
    fn parse_return_type(&mut self) -> (r: Result<Option<Type>, ParseError>)
        requires
            old(self).wf(),
        ensures
            final(self).moved_on(*old(self)),
            p_return_type(old(self).toks(), old(self).position()) == outcome(opt_type_res(r), final(self).position()),
    {
        reveal(p_return_type);
        proof { self.lemma_bound(); }
        if self.match_token(TokenKind::Arrow) {
            match self.parse_type() {
                Ok(t) => Ok(Some(t)),
                Err(e) => Err(e),
            }
        } else {
            Ok(None)
        }
    }

    fn parse_function(&mut self) -> (r: Result<Function, ParseError>)
        requires
            old(self).wf(),
        ensures
            consumed(*old(self), *final(self), r),
            p_function(old(self).toks(), old(self).position()) == outcome(function_res(r), final(self).position()),
    {
        reveal(p_function);
        if let Err(e) = self.expect(TokenKind::Fn) {
            return Err(e);
        }
        let name = match self.expect_identifier() {
            Ok(v) => v,
            Err(e) => {
                return Err(e);
            },
        };
        if let Err(e) = self.expect(TokenKind::LeftParen) {
            return Err(e);
        }
        let params = if !self.check(&TokenKind::RightParen) {
            match self.parse_params() {
                Ok(v) => v,
                Err(e) => {
                    return Err(e);
                },
            }
        } else {
            Vec::new()
        };
        if let Err(e) = self.expect(TokenKind::RightParen) {
            return Err(e);
        }
        let return_type = match self.parse_return_type() {
            Ok(v) => v,
            Err(e) => {
                return Err(e);
            },
        };
        let body = match self.parse_braced() {
            Ok(v) => v,
            Err(e) => {
                return Err(e);
            },
        };
        proof {
            assert(params_view(Seq::<Parameter>::empty()) =~= Seq::<DeclV>::empty());
        }
        Ok(Function { name, params, return_type, body })
    }

    /// State variables and functions up to a closing brace or the end of input.
    fn parse_members(&mut self) -> (r: Result<(Vec<StateVar>, Vec<Function>), ParseError>)
        requires
            old(self).wf(),
        ensures
            final(self).moved_on(*old(self)),
            p_members(old(self).toks(), old(self).position(), Seq::empty(), Seq::empty()) == (match r {
                Ok((vars, fns)) => Ok((state_vars_view(vars@), functions_view(fns@), final(self).position())),
                Err(e) => Err(e@),
            }),
    {
        proof { self.lemma_bound(); }
        let ghost toks = self.toks();
        let ghost pos = self.position();
        let mut state_vars: Vec<StateVar> = Vec::new();
        let mut functions: Vec<Function> = Vec::new();
        proof {
            assert(state_vars_view(state_vars@) =~= Seq::<DeclV>::empty());
            assert(functions_view(functions@) =~= Seq::<FunctionV>::empty());
        }
        loop
            invariant
                self.wf(),
                self.toks() == toks,
                toks == old(self).toks(),
                pos == old(self).position(),
                pos <= self.position(),
                self.position() < toks.len(),
                p_members(toks, pos, Seq::empty(), Seq::empty()) == p_members(
                    toks,
                    self.position(),
                    state_vars_view(state_vars@),
                    functions_view(functions@),
                ),
            decreases toks.len() - self.position(),
        {
            reveal(p_members);
            if self.check(&TokenKind::RightBrace) || self.check(&TokenKind::Eof) {
                return Ok((state_vars, functions));
            }
            if self.check(&TokenKind::State) {
                let v = match self.parse_state_var() {
                    Ok(v) => v,
                    Err(e) => {
                        return Err(e);
                    },
                };
                let ghost before = state_vars@;
                state_vars.push(v);
                proof {
                    assert(state_vars_view(state_vars@) =~= state_vars_view(before).push(
                        DeclV { name: state_vars@.last().name@, ty: type_view(state_vars@.last().ty) },
                    ));
                }
            } else if self.check(&TokenKind::Fn) {
                let f = match self.parse_function() {
                    Ok(v) => v,
                    Err(e) => {
                        return Err(e);
                    },
                };
                let ghost before = functions@;
                functions.push(f);
                proof {
                    assert(functions_view(functions@) =~= functions_view(before).push(
                        function_view(functions@.last()),
                    ));
                }
            } else {
                return Err(self.error("expected 'state' or 'fn'"));
            }
        }
    }

    fn parse_contract(&mut self) -> (r: Result<Contract, ParseError>)
        requires
            old(self).wf(),
        ensures
            final(self).moved_on(*old(self)),
            p_contract(old(self).toks(), old(self).position()) == outcome(contract_res(r), final(self).position()),
    {
        reveal(p_contract);
        if let Err(e) = self.expect(TokenKind::Contract) {
            return Err(e);
        }
        let name = match self.expect_identifier() {
            Ok(v) => v,
            Err(e) => {
                return Err(e);
            },
        };
        if let Err(e) = self.expect(TokenKind::LeftBrace) {
            return Err(e);
        }
        let (state_vars, functions) = match self.parse_members() {
            Ok(v) => v,
            Err(e) => {
                return Err(e);
            },
        };
        if let Err(e) = self.expect(TokenKind::RightBrace) {
            return Err(e);
        }
        let contract = Contract { name, structs: Vec::new(), state_vars, functions };
        proof {
            assert(contract_view(contract).structs =~= Seq::<(Seq<char>, Seq<DeclV>)>::empty());
        }
        Ok(contract)
    }

    /// Parse a full ThunderScript program: one contract, from the current
    /// token. The result is what the grammar gives for the token stream.
    pub fn parse(&mut self) -> (r: Result<Program, ParseError>)
        requires
            old(self).wf(),
        ensures
            final(self).moved_on(*old(self)),
            p_contract(old(self).toks(), old(self).position()) == (match r {
                Ok(p) => Ok((contract_view(p.contract), final(self).position())),
                Err(e) => Err(e@),
            }),
    {
        match self.parse_contract() {
            Ok(contract) => Ok(Program { contract }),
            Err(e) => Err(e),
        }
    }
}

} // verus!
