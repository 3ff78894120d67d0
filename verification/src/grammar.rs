//! The ThunderScript grammar as a function from a token sequence and a
//! position to what is parsed there and where parsing stops.

use vstd::prelude::*;
use crate::ast::{BinaryOperator, ContractV, DeclV, ExprV, FunctionV, StmtV, TargetV, TypeV, UnaryOperator};
use crate::lexer::{kind_tag, TokenKindView, TokenView};

verus! {

/// The abstract value of a syntax error.
pub ghost struct ParseErrV {
    pub message: Seq<char>,
    pub line: int,
    pub column: int,
}

/// The lowercase hex digits of a number below 256, without leading zeros.
pub open spec fn small_hex(n: int) -> Seq<char> {
    if n < 16 {
        seq![crate::crypto::hex_digit(n)]
    } else {
        seq![crate::crypto::hex_digit(n / 16), crate::crypto::hex_digit(n % 16)]
    }
}

/// How a character of a string is written in messages: `"` and `\` after
/// a backslash, tab, newline, carriage return and NUL as `\t`, `\n`, `\r`
/// and `\0`, other control characters as `\u{..}` in hex, anything else
/// as it is.
pub open spec fn escape_char(c: char) -> Seq<char> {
    if c == '"' {
        seq!['\\', '"']
    } else if c == '\\' {
        seq!['\\', '\\']
    } else if c == '\t' {
        seq!['\\', 't']
    } else if c == '\n' {
        seq!['\\', 'n']
    } else if c == '\r' {
        seq!['\\', 'r']
    } else if c == '\0' {
        seq!['\\', '0']
    } else if (c as u32) < 32 || (c as u32) == 127 {
        seq!['\\', 'u', '{'] + small_hex(c as u32 as int) + seq!['}']
    } else {
        seq![c]
    }
}

/// The characters of a string, each written as `escape_char` says.
pub open spec fn escaped(s: Seq<char>) -> Seq<char>
    decreases s.len(),
{
    if s.len() == 0 {
        Seq::empty()
    } else {
        escaped(s.drop_last()) + escape_char(s.last())
    }
}

/// A string as written in messages: escaped, in double quotes.
pub open spec fn quoted(s: Seq<char>) -> Seq<char> {
    seq!['"'] + escaped(s) + seq!['"']
}

/// How a token kind is named in messages: the kind's name (the `map`
/// keyword's kind is `Map`), and for a literal or identifier its value in
/// brackets, strings quoted.
pub open spec fn kind_name(k: TokenKindView) -> Seq<char> {
    match k {
        TokenKindView::Contract => "Contract"@,
        TokenKindView::Fn => "Fn"@,
        TokenKindView::Let => "Let"@,
        TokenKindView::If => "If"@,
        TokenKindView::Else => "Else"@,
        TokenKindView::While => "While"@,
        TokenKindView::Return => "Return"@,
        TokenKindView::State => "State"@,
        TokenKindView::Emit => "Emit"@,
        TokenKindView::Require => "Require"@,
        TokenKindView::Self_ => "Self_"@,
        TokenKindView::True => "True"@,
        TokenKindView::False => "False"@,
        TokenKindView::U64 => "U64"@,
        TokenKindView::Bool => "Bool"@,
        TokenKindView::Address => "Address"@,
        TokenKindView::StringType => "StringType"@,
        TokenKindView::MapType => "Map"@,
        TokenKindView::Plus => "Plus"@,
        TokenKindView::Minus => "Minus"@,
        TokenKindView::Star => "Star"@,
        TokenKindView::Slash => "Slash"@,
        TokenKindView::Percent => "Percent"@,
        TokenKindView::Eq => "Eq"@,
        TokenKindView::Neq => "Neq"@,
        TokenKindView::Lt => "Lt"@,
        TokenKindView::Gt => "Gt"@,
        TokenKindView::Lte => "Lte"@,
        TokenKindView::Gte => "Gte"@,
        TokenKindView::And => "And"@,
        TokenKindView::Or => "Or"@,
        TokenKindView::Not => "Not"@,
        TokenKindView::Assign => "Assign"@,
        TokenKindView::LeftParen => "LeftParen"@,
        TokenKindView::RightParen => "RightParen"@,
        TokenKindView::LeftBrace => "LeftBrace"@,
        TokenKindView::RightBrace => "RightBrace"@,
        TokenKindView::LeftBracket => "LeftBracket"@,
        TokenKindView::RightBracket => "RightBracket"@,
        TokenKindView::Comma => "Comma"@,
        TokenKindView::Semicolon => "Semicolon"@,
        TokenKindView::Colon => "Colon"@,
        TokenKindView::Dot => "Dot"@,
        TokenKindView::Arrow => "Arrow"@,
        TokenKindView::Eof => "Eof"@,
        TokenKindView::IntLiteral(v) => "IntLiteral("@ + crate::text::decimal(v as nat) + ")"@,
        TokenKindView::StringLiteral(t) => "StringLiteral("@ + quoted(t) + ")"@,
        TokenKindView::Identifier(t) => "Identifier("@ + quoted(t) + ")"@,
    }
}

// ── Abstract parser ────────────────────────────────────────────────────────

/// A parse outcome: the value and the position after it, or an error.
pub type Parsed<T> = Result<(T, int), ParseErrV>;

/// The token at `pos`; past the end, the last token.
pub open spec fn tok_at(toks: Seq<TokenView>, pos: int) -> TokenView {
    if 0 <= pos < toks.len() { toks[pos] } else { toks.last() }
}

/// The position after consuming one token (it does not move past the end).
pub open spec fn next_pos(toks: Seq<TokenView>, pos: int) -> int {
    if pos < toks.len() { pos + 1 } else { pos }
}

/// The token at `pos` is of the given kind (payloads ignored).
pub open spec fn at_kind(toks: Seq<TokenView>, pos: int, k: TokenKindView) -> bool {
    kind_tag(tok_at(toks, pos).kind) == kind_tag(k)
}

/// An error at the token at `pos`.
pub open spec fn err_here(toks: Seq<TokenView>, pos: int, msg: Seq<char>) -> ParseErrV {
    ParseErrV { message: msg, line: tok_at(toks, pos).line, column: tok_at(toks, pos).column }
}

/// An error naming the offending token.
pub open spec fn err_token(t: TokenView, msg: Seq<char>) -> ParseErrV {
    ParseErrV { message: msg + " (got '"@ + t.lexeme + "')"@, line: t.line, column: t.column }
}

/// Reported where a position would fail to advance; never happens on token
/// streams that end with an end-of-file token.
pub open spec fn stuck(toks: Seq<TokenView>, pos: int) -> ParseErrV {
    err_here(toks, pos, "no progress"@)
}

/// `a < b <= len`.
pub open spec fn forward(toks: Seq<TokenView>, a: int, b: int) -> bool {
    a < b <= toks.len()
}

/// `a <= b <= len`.
pub open spec fn onward(toks: Seq<TokenView>, a: int, b: int) -> bool {
    a <= b <= toks.len()
}

/// Consume a token of kind `k`.
pub open spec fn p_expect(toks: Seq<TokenView>, pos: int, k: TokenKindView) -> Result<int, ParseErrV> {
    if at_kind(toks, pos, k) {
        Ok(next_pos(toks, pos))
    } else {
        Err(err_here(toks, pos, "expected "@ + kind_name(k) + ", got "@ + kind_name(tok_at(toks, pos).kind)))
    }
}

/// Consume an identifier.
pub open spec fn p_ident(toks: Seq<TokenView>, pos: int) -> Parsed<Seq<char>> {
    match tok_at(toks, pos).kind {
        TokenKindView::Identifier(n) => Ok((n, next_pos(toks, pos))),
        _ => Err(err_token(tok_at(toks, pos), "expected identifier"@)),
    }
}

/// Consume a string literal.
pub open spec fn p_string(toks: Seq<TokenView>, pos: int) -> Parsed<Seq<char>> {
    match tok_at(toks, pos).kind {
        TokenKindView::StringLiteral(s) => Ok((s, next_pos(toks, pos))),
        _ => Err(err_token(tok_at(toks, pos), "expected string literal"@)),
    }
}

// Expressions, by precedence from loosest to tightest.  The second decreases
// component orders the functions that may call each other without consuming.

#[verifier::opaque]
pub open spec fn p_expression(toks: Seq<TokenView>, pos: int) -> Parsed<ExprV>
    decreases toks.len() - pos, 20int,
{
    p_or(toks, pos)
}

/// A left-associated chain of binary operators: after `left`, while the next
/// token is one of `ops`, consume it and an operand.
#[verifier::opaque]
pub open spec fn p_or(toks: Seq<TokenView>, pos: int) -> Parsed<ExprV>
    decreases toks.len() - pos, 19int,
{
    match p_and(toks, pos) {
        Err(e) => Err(e),
        Ok((l, p)) => if !onward(toks, pos, p) { Err(stuck(toks, p)) } else { p_or_tail(toks, p, l) },
    }
}

#[verifier::opaque]
pub open spec fn p_or_tail(toks: Seq<TokenView>, pos: int, left: ExprV) -> Parsed<ExprV>
    decreases toks.len() - pos, 18int,
{
    if at_kind(toks, pos, TokenKindView::Or) {
        let p1 = next_pos(toks, pos);
        if !forward(toks, pos, p1) {
            Err(stuck(toks, pos))
        } else {
            match p_and(toks, p1) {
                Err(e) => Err(e),
                Ok((r, p2)) => if !onward(toks, p1, p2) {
                    Err(stuck(toks, p2))
                } else {
                    p_or_tail(toks, p2, ExprV::BinaryOp(Box::new(left), BinaryOperator::Or, Box::new(r)))
                },
            }
        }
    } else {
        Ok((left, pos))
    }
}

#[verifier::opaque]
pub open spec fn p_and(toks: Seq<TokenView>, pos: int) -> Parsed<ExprV>
    decreases toks.len() - pos, 17int,
{
    match p_equality(toks, pos) {
        Err(e) => Err(e),
        Ok((l, p)) => if !onward(toks, pos, p) { Err(stuck(toks, p)) } else { p_and_tail(toks, p, l) },
    }
}

#[verifier::opaque]
pub open spec fn p_and_tail(toks: Seq<TokenView>, pos: int, left: ExprV) -> Parsed<ExprV>
    decreases toks.len() - pos, 16int,
{
    if at_kind(toks, pos, TokenKindView::And) {
        let p1 = next_pos(toks, pos);
        if !forward(toks, pos, p1) {
            Err(stuck(toks, pos))
        } else {
            match p_equality(toks, p1) {
                Err(e) => Err(e),
                Ok((r, p2)) => if !onward(toks, p1, p2) {
                    Err(stuck(toks, p2))
                } else {
                    p_and_tail(toks, p2, ExprV::BinaryOp(Box::new(left), BinaryOperator::And, Box::new(r)))
                },
            }
        }
    } else {
        Ok((left, pos))
    }
}

/// The operator an equality token stands for.
pub open spec fn equality_op(t: TokenKindView) -> Option<BinaryOperator> {
    match t {
        TokenKindView::Eq => Some(BinaryOperator::Eq),
        TokenKindView::Neq => Some(BinaryOperator::Neq),
        _ => None,
    }
}

/// The operator a comparison token stands for.
pub open spec fn comparison_op(t: TokenKindView) -> Option<BinaryOperator> {
    match t {
        TokenKindView::Lt => Some(BinaryOperator::Lt),
        TokenKindView::Gt => Some(BinaryOperator::Gt),
        TokenKindView::Lte => Some(BinaryOperator::Lte),
        TokenKindView::Gte => Some(BinaryOperator::Gte),
        _ => None,
    }
}

/// The operator an additive token stands for.
pub open spec fn additive_op(t: TokenKindView) -> Option<BinaryOperator> {
    match t {
        TokenKindView::Plus => Some(BinaryOperator::Add),
        TokenKindView::Minus => Some(BinaryOperator::Sub),
        _ => None,
    }
}

/// The operator a multiplicative token stands for.
pub open spec fn multiplicative_op(t: TokenKindView) -> Option<BinaryOperator> {
    match t {
        TokenKindView::Star => Some(BinaryOperator::Mul),
        TokenKindView::Slash => Some(BinaryOperator::Div),
        TokenKindView::Percent => Some(BinaryOperator::Mod),
        _ => None,
    }
}

/// Each binary operator token with the operator it is read as.
pub open spec fn operator_tokens() -> Seq<(TokenKindView, BinaryOperator)> {
    seq![
        (TokenKindView::Eq, BinaryOperator::Eq),
        (TokenKindView::Neq, BinaryOperator::Neq),
        (TokenKindView::Lt, BinaryOperator::Lt),
        (TokenKindView::Gt, BinaryOperator::Gt),
        (TokenKindView::Lte, BinaryOperator::Lte),
        (TokenKindView::Gte, BinaryOperator::Gte),
        (TokenKindView::Plus, BinaryOperator::Add),
        (TokenKindView::Minus, BinaryOperator::Sub),
        (TokenKindView::Star, BinaryOperator::Mul),
        (TokenKindView::Slash, BinaryOperator::Div),
        (TokenKindView::Percent, BinaryOperator::Mod),
    ]
}

/// The operator a token stands for at whichever precedence level reads it.
pub open spec fn token_operator(t: TokenKindView) -> Option<BinaryOperator> {
    match equality_op(t) {
        Some(o) => Some(o),
        None => match comparison_op(t) {
            Some(o) => Some(o),
            None => match additive_op(t) {
                Some(o) => Some(o),
                None => multiplicative_op(t),
            },
        },
    }
}

/// Law: each operator token is read as the operator of the same symbol
/// (`<=` as `Lte`, `-` as `Sub`, `%` as `Mod`, ...), at exactly one
/// precedence level; no other token is read as a binary operator there;
/// and different tokens give different operators.
pub proof fn lemma_operator_tokens(t: TokenKindView)
    ensures
        forall|i: int| 0 <= i < operator_tokens().len() ==> token_operator(#[trigger] operator_tokens()[i].0)
            == Some(operator_tokens()[i].1),
        (equality_op(t) is Some) as int + (comparison_op(t) is Some) as int + (additive_op(t) is Some) as int
            + (multiplicative_op(t) is Some) as int <= 1,
        (forall|i: int| 0 <= i < operator_tokens().len() ==> t != (#[trigger] operator_tokens()[i]).0)
            ==> token_operator(t) is None,
        forall|i: int, j: int| 0 <= i < j < operator_tokens().len() ==> (#[trigger] operator_tokens()[i]).1
            != (#[trigger] operator_tokens()[j]).1,
{
    let r = operator_tokens();
    assert forall|i: int| 0 <= i < r.len() implies token_operator(#[trigger] r[i].0) == Some(r[i].1) by {
        if i == 0 { assert(r[0] == (TokenKindView::Eq, BinaryOperator::Eq)); }
        if i == 1 { assert(r[1] == (TokenKindView::Neq, BinaryOperator::Neq)); }
        if i == 2 { assert(r[2] == (TokenKindView::Lt, BinaryOperator::Lt)); }
        if i == 3 { assert(r[3] == (TokenKindView::Gt, BinaryOperator::Gt)); }
        if i == 4 { assert(r[4] == (TokenKindView::Lte, BinaryOperator::Lte)); }
        if i == 5 { assert(r[5] == (TokenKindView::Gte, BinaryOperator::Gte)); }
        if i == 6 { assert(r[6] == (TokenKindView::Plus, BinaryOperator::Add)); }
        if i == 7 { assert(r[7] == (TokenKindView::Minus, BinaryOperator::Sub)); }
        if i == 8 { assert(r[8] == (TokenKindView::Star, BinaryOperator::Mul)); }
        if i == 9 { assert(r[9] == (TokenKindView::Slash, BinaryOperator::Div)); }
        if i == 10 { assert(r[10] == (TokenKindView::Percent, BinaryOperator::Mod)); }
    }
    if forall|i: int| 0 <= i < r.len() ==> t != (#[trigger] r[i]).0 {
        assert(t != r[0].0 && t != r[1].0 && t != r[2].0 && t != r[3].0 && t != r[4].0 && t != r[5].0);
        assert(t != r[6].0 && t != r[7].0 && t != r[8].0 && t != r[9].0 && t != r[10].0);
    }
}

#[verifier::opaque]
pub open spec fn p_equality(toks: Seq<TokenView>, pos: int) -> Parsed<ExprV>
    decreases toks.len() - pos, 15int,
{
    match p_comparison(toks, pos) {
        Err(e) => Err(e),
        Ok((l, p)) => if !onward(toks, pos, p) { Err(stuck(toks, p)) } else { p_equality_tail(toks, p, l) },
    }
}

#[verifier::opaque]
pub open spec fn p_equality_tail(toks: Seq<TokenView>, pos: int, left: ExprV) -> Parsed<ExprV>
    decreases toks.len() - pos, 14int,
{
    match equality_op(tok_at(toks, pos).kind) {
        Some(op) => {
            let p1 = next_pos(toks, pos);
            if !forward(toks, pos, p1) {
                Err(stuck(toks, pos))
            } else {
                match p_comparison(toks, p1) {
                    Err(e) => Err(e),
                    Ok((r, p2)) => if !onward(toks, p1, p2) {
                        Err(stuck(toks, p2))
                    } else {
                        p_equality_tail(toks, p2, ExprV::BinaryOp(Box::new(left), op, Box::new(r)))
                    },
                }
            }
        },
        None => Ok((left, pos)),
    }
}

#[verifier::opaque]
pub open spec fn p_comparison(toks: Seq<TokenView>, pos: int) -> Parsed<ExprV>
    decreases toks.len() - pos, 13int,
{
    match p_additive(toks, pos) {
        Err(e) => Err(e),
        Ok((l, p)) => if !onward(toks, pos, p) { Err(stuck(toks, p)) } else { p_comparison_tail(toks, p, l) },
    }
}

#[verifier::opaque]
pub open spec fn p_comparison_tail(toks: Seq<TokenView>, pos: int, left: ExprV) -> Parsed<ExprV>
    decreases toks.len() - pos, 12int,
{
    match comparison_op(tok_at(toks, pos).kind) {
        Some(op) => {
            let p1 = next_pos(toks, pos);
            if !forward(toks, pos, p1) {
                Err(stuck(toks, pos))
            } else {
                match p_additive(toks, p1) {
                    Err(e) => Err(e),
                    Ok((r, p2)) => if !onward(toks, p1, p2) {
                        Err(stuck(toks, p2))
                    } else {
                        p_comparison_tail(toks, p2, ExprV::BinaryOp(Box::new(left), op, Box::new(r)))
                    },
                }
            }
        },
        None => Ok((left, pos)),
    }
}

#[verifier::opaque]
pub open spec fn p_additive(toks: Seq<TokenView>, pos: int) -> Parsed<ExprV>
    decreases toks.len() - pos, 11int,
{
    match p_multiplicative(toks, pos) {
        Err(e) => Err(e),
        Ok((l, p)) => if !onward(toks, pos, p) { Err(stuck(toks, p)) } else { p_additive_tail(toks, p, l) },
    }
}

#[verifier::opaque]
pub open spec fn p_additive_tail(toks: Seq<TokenView>, pos: int, left: ExprV) -> Parsed<ExprV>
    decreases toks.len() - pos, 10int,
{
    match additive_op(tok_at(toks, pos).kind) {
        Some(op) => {
            let p1 = next_pos(toks, pos);
            if !forward(toks, pos, p1) {
                Err(stuck(toks, pos))
            } else {
                match p_multiplicative(toks, p1) {
                    Err(e) => Err(e),
                    Ok((r, p2)) => if !onward(toks, p1, p2) {
                        Err(stuck(toks, p2))
                    } else {
                        p_additive_tail(toks, p2, ExprV::BinaryOp(Box::new(left), op, Box::new(r)))
                    },
                }
            }
        },
        None => Ok((left, pos)),
    }
}

#[verifier::opaque]
pub open spec fn p_multiplicative(toks: Seq<TokenView>, pos: int) -> Parsed<ExprV>
    decreases toks.len() - pos, 9int,
{
    match p_unary(toks, pos) {
        Err(e) => Err(e),
        Ok((l, p)) => if !onward(toks, pos, p) { Err(stuck(toks, p)) } else { p_multiplicative_tail(toks, p, l) },
    }
}

#[verifier::opaque]
pub open spec fn p_multiplicative_tail(toks: Seq<TokenView>, pos: int, left: ExprV) -> Parsed<ExprV>
    decreases toks.len() - pos, 8int,
{
    match multiplicative_op(tok_at(toks, pos).kind) {
        Some(op) => {
            let p1 = next_pos(toks, pos);
            if !forward(toks, pos, p1) {
                Err(stuck(toks, pos))
            } else {
                match p_unary(toks, p1) {
                    Err(e) => Err(e),
                    Ok((r, p2)) => if !onward(toks, p1, p2) {
                        Err(stuck(toks, p2))
                    } else {
                        p_multiplicative_tail(toks, p2, ExprV::BinaryOp(Box::new(left), op, Box::new(r)))
                    },
                }
            }
        },
        None => Ok((left, pos)),
    }
}

#[verifier::opaque]
pub open spec fn p_unary(toks: Seq<TokenView>, pos: int) -> Parsed<ExprV>
    decreases toks.len() - pos, 7int,
{
    if at_kind(toks, pos, TokenKindView::Not) || at_kind(toks, pos, TokenKindView::Minus) {
        let op = if at_kind(toks, pos, TokenKindView::Not) { UnaryOperator::Not } else { UnaryOperator::Negate };
        let p1 = next_pos(toks, pos);
        if !forward(toks, pos, p1) {
            Err(stuck(toks, pos))
        } else {
            match p_unary(toks, p1) {
                Err(e) => Err(e),
                Ok((e, p2)) => Ok((ExprV::UnaryOp(op, Box::new(e)), p2)),
            }
        }
    } else {
        p_primary(toks, pos)
    }
}

/// Comma-separated expressions (at least one).
#[verifier::opaque]
pub open spec fn p_args(toks: Seq<TokenView>, pos: int, acc: Seq<ExprV>) -> Parsed<Seq<ExprV>>
    decreases toks.len() - pos, 21int,
{
    match p_expression(toks, pos) {
        Err(e) => Err(e),
        Ok((e, p1)) => if !onward(toks, pos, p1) {
            Err(stuck(toks, p1))
        } else if at_kind(toks, p1, TokenKindView::Comma) {
            let p2 = next_pos(toks, p1);
            if !forward(toks, pos, p2) {
                Err(stuck(toks, p1))
            } else {
                p_args(toks, p2, acc.push(e))
            }
        } else {
            Ok((acc.push(e), p1))
        },
    }
}

/// The closing parenthesis after an argument list.
pub open spec fn close_args(toks: Seq<TokenView>, r: Parsed<Seq<ExprV>>) -> Parsed<Seq<ExprV>> {
    match r {
        Err(e) => Err(e),
        Ok((args, p)) => match p_expect(toks, p, TokenKindView::RightParen) {
            Err(e) => Err(e),
            Ok(p2) => Ok((args, p2)),
        },
    }
}

/// A parenthesised argument list, from just after `(` to just after `)`.
#[verifier::opaque]
pub open spec fn p_call_args(toks: Seq<TokenView>, pos: int) -> Parsed<Seq<ExprV>>
    decreases toks.len() - pos, 22int,
{
    if at_kind(toks, pos, TokenKindView::RightParen) {
        match p_expect(toks, pos, TokenKindView::RightParen) {
            Err(e) => Err(e),
            Ok(p) => Ok((Seq::empty(), p)),
        }
    } else {
        close_args(toks, p_args(toks, pos, Seq::empty()))
    }
}

#[verifier::opaque]
pub open spec fn p_primary(toks: Seq<TokenView>, pos: int) -> Parsed<ExprV>
    decreases toks.len() - pos, 6int,
{
    let t = tok_at(toks, pos);
    let p1 = next_pos(toks, pos);
    match t.kind {
        TokenKindView::IntLiteral(v) => Ok((ExprV::IntLiteral(v), p1)),
        TokenKindView::True => Ok((ExprV::BoolLiteral(true), p1)),
        TokenKindView::False => Ok((ExprV::BoolLiteral(false), p1)),
        TokenKindView::StringLiteral(s) => Ok((ExprV::StringLiteral(s), p1)),
        TokenKindView::Self_ => match p_expect(toks, p1, TokenKindView::Dot) {
            Err(e) => Err(e),
            Ok(p2) => match p_ident(toks, p2) {
                Err(e) => Err(e),
                Ok((field, p3)) => if at_kind(toks, p3, TokenKindView::LeftBracket) {
                    let p4 = next_pos(toks, p3);
                    if !forward(toks, pos, p4) {
                        Err(stuck(toks, p3))
                    } else {
                        match p_expression(toks, p4) {
                            Err(e) => Err(e),
                            Ok((key, p5)) => match p_expect(toks, p5, TokenKindView::RightBracket) {
                                Err(e) => Err(e),
                                Ok(p6) => Ok((ExprV::StateMapAccess(field, Box::new(key)), p6)),
                            },
                        }
                    }
                } else {
                    Ok((ExprV::StateAccess(field), p3))
                },
            },
        },
        TokenKindView::Identifier(name) => if at_kind(toks, p1, TokenKindView::LeftParen) {
            let p2 = next_pos(toks, p1);
            if !forward(toks, pos, p2) {
                Err(stuck(toks, p1))
            } else {
                match p_call_args(toks, p2) {
                    Err(e) => Err(e),
                    Ok((args, p3)) => Ok((ExprV::FunctionCall(name, args), p3)),
                }
            }
        } else {
            Ok((ExprV::Variable(name), p1))
        },
        TokenKindView::LeftParen => if !forward(toks, pos, p1) {
            Err(stuck(toks, pos))
        } else {
            match p_expression(toks, p1) {
                Err(e) => Err(e),
                Ok((e, p2)) => match p_expect(toks, p2, TokenKindView::RightParen) {
                    Err(err) => Err(err),
                    Ok(p3) => Ok((e, p3)),
                },
            }
        },
        _ => Err(err_token(t, "expected expression"@)),
    }
}


// ── Types ──────────────────────────────────────────────────────────────────

#[verifier::opaque]
pub open spec fn p_type(toks: Seq<TokenView>, pos: int) -> Parsed<TypeV>
    decreases toks.len() - pos,
{
    let t = tok_at(toks, pos);
    let p1 = next_pos(toks, pos);
    match t.kind {
        TokenKindView::U64 => Ok((TypeV::U64, p1)),
        TokenKindView::Bool => Ok((TypeV::Bool, p1)),
        TokenKindView::Address => Ok((TypeV::Address, p1)),
        TokenKindView::StringType => Ok((TypeV::Str, p1)),
        TokenKindView::MapType => match p_expect(toks, p1, TokenKindView::Lt) {
            Err(e) => Err(e),
            Ok(p2) => if !forward(toks, pos, p2) {
                Err(stuck(toks, p2))
            } else {
                match p_type(toks, p2) {
                    Err(e) => Err(e),
                    Ok((k, p3)) => match p_expect(toks, p3, TokenKindView::Comma) {
                        Err(e) => Err(e),
                        Ok(p4) => if !forward(toks, pos, p4) {
                            Err(stuck(toks, p4))
                        } else {
                            match p_type(toks, p4) {
                                Err(e) => Err(e),
                                Ok((v, p5)) => match p_expect(toks, p5, TokenKindView::Gt) {
                                    Err(e) => Err(e),
                                    Ok(p6) => Ok((TypeV::Mapping(Box::new(k), Box::new(v)), p6)),
                                },
                            }
                        },
                    },
                }
            },
        },
        _ => Err(err_token(t, "expected type"@)),
    }
}

/// A token that names a type by itself: `u64`, `bool`, `address` or
/// `string`.
pub open spec fn scalar_type_token(k: TokenKindView) -> bool {
    k == TokenKindView::U64 || k == TokenKindView::Bool || k == TokenKindView::Address || k == TokenKindView::StringType
}

/// Law: a type keyword parses, in one token, to the type it names: the
/// words `u64`, `bool`, `address` and `string` give `U64`, `Bool`, `Address`
/// and `Str`; and type keywords of different kinds always give different
/// types.
pub proof fn lemma_scalar_types(toks: Seq<TokenView>, pos: int, toks2: Seq<TokenView>, pos2: int)
    requires
        0 <= pos < toks.len(),
        0 <= pos2 < toks2.len(),
    ensures
        toks[pos].kind == crate::lexer::keyword_kind("u64"@) ==> p_type(toks, pos) == Ok::<(TypeV, int), ParseErrV>((TypeV::U64, pos + 1)),
        toks[pos].kind == crate::lexer::keyword_kind("bool"@) ==> p_type(toks, pos) == Ok::<(TypeV, int), ParseErrV>((TypeV::Bool, pos + 1)),
        toks[pos].kind == crate::lexer::keyword_kind("address"@) ==> p_type(toks, pos) == Ok::<(TypeV, int), ParseErrV>((TypeV::Address, pos + 1)),
        toks[pos].kind == crate::lexer::keyword_kind("string"@) ==> p_type(toks, pos) == Ok::<(TypeV, int), ParseErrV>((TypeV::Str, pos + 1)),
        scalar_type_token(toks[pos].kind) && scalar_type_token(toks2[pos2].kind) && toks[pos].kind != toks2[pos2].kind
            ==> p_type(toks, pos) is Ok && p_type(toks2, pos2) is Ok
                && p_type(toks, pos)->Ok_0.0 != p_type(toks2, pos2)->Ok_0.0,
{
    reveal(p_type);
    crate::lexer::lemma_keywords(Seq::empty());
    let r = crate::lexer::reserved_words();
    assert(r[13] == ("u64"@, TokenKindView::U64));
    assert(r[14] == ("bool"@, TokenKindView::Bool));
    assert(r[15] == ("address"@, TokenKindView::Address));
    assert(r[16] == ("string"@, TokenKindView::StringType));
    assert(crate::lexer::keyword_kind(r[13].0) == r[13].1);
    assert(crate::lexer::keyword_kind(r[14].0) == r[14].1);
    assert(crate::lexer::keyword_kind(r[15].0) == r[15].1);
    assert(crate::lexer::keyword_kind(r[16].0) == r[16].1);
}

// ── Statements ─────────────────────────────────────────────────────────────

/// Statements up to a closing brace or the end of input.
#[verifier::opaque]
pub open spec fn p_block(toks: Seq<TokenView>, pos: int, acc: Seq<StmtV>) -> Parsed<Seq<StmtV>>
    decreases toks.len() - pos, 32int,
{
    if at_kind(toks, pos, TokenKindView::RightBrace) || at_kind(toks, pos, TokenKindView::Eof) {
        Ok((acc, pos))
    } else {
        match p_statement(toks, pos) {
            Err(e) => Err(e),
            Ok((st, p1)) => if !forward(toks, pos, p1) {
                Err(stuck(toks, p1))
            } else {
                p_block(toks, p1, acc.push(st))
            },
        }
    }
}

/// `{ statements }`, from the opening brace.
#[verifier::opaque]
pub open spec fn p_braced(toks: Seq<TokenView>, pos: int) -> Parsed<Seq<StmtV>>
    decreases toks.len() - pos, 33int,
{
    match p_expect(toks, pos, TokenKindView::LeftBrace) {
        Err(e) => Err(e),
        Ok(p1) => if !forward(toks, pos, p1) {
            Err(stuck(toks, p1))
        } else {
            match p_block(toks, p1, Seq::empty()) {
                Err(e) => Err(e),
                Ok((body, p2)) => match p_expect(toks, p2, TokenKindView::RightBrace) {
                    Err(e) => Err(e),
                    Ok(p3) => Ok((body, p3)),
                },
            }
        },
    }
}

#[verifier::opaque]
pub open spec fn p_statement(toks: Seq<TokenView>, pos: int) -> Parsed<StmtV>
    decreases toks.len() - pos, 31int,
{
    if at_kind(toks, pos, TokenKindView::Let) {
        p_let(toks, pos)
    } else if at_kind(toks, pos, TokenKindView::If) {
        p_if(toks, pos)
    } else if at_kind(toks, pos, TokenKindView::While) {
        p_while(toks, pos)
    } else if at_kind(toks, pos, TokenKindView::Return) {
        p_return(toks, pos)
    } else if at_kind(toks, pos, TokenKindView::Require) {
        p_require(toks, pos)
    } else if at_kind(toks, pos, TokenKindView::Emit) {
        p_emit(toks, pos)
    } else if at_kind(toks, pos, TokenKindView::Self_) {
        p_self_statement(toks, pos)
    } else if at_kind(toks, pos, TokenKindView::Identifier(Seq::empty())) {
        p_assign_or_expression(toks, pos)
    } else {
        match p_expression(toks, pos) {
            Err(e) => Err(e),
            Ok((e, p1)) => match p_expect(toks, p1, TokenKindView::Semicolon) {
                Err(err) => Err(err),
                Ok(p2) => Ok((StmtV::Expression(e), p2)),
            },
        }
    }
}

/// An expression followed by a semicolon.
#[verifier::opaque]
pub open spec fn p_expr_semi(toks: Seq<TokenView>, pos: int) -> Parsed<ExprV> {
    match p_expression(toks, pos) {
        Err(e) => Err(e),
        Ok((e, p1)) => match p_expect(toks, p1, TokenKindView::Semicolon) {
            Err(err) => Err(err),
            Ok(p2) => Ok((e, p2)),
        },
    }
}

#[verifier::opaque]
pub open spec fn p_let(toks: Seq<TokenView>, pos: int) -> Parsed<StmtV>
    decreases toks.len() - pos, 30int,
{
    match p_expect(toks, pos, TokenKindView::Let) {
        Err(e) => Err(e),
        Ok(p1) => match p_ident(toks, p1) {
            Err(e) => Err(e),
            Ok((name, p2)) => match p_expect(toks, p2, TokenKindView::Assign) {
                Err(e) => Err(e),
                Ok(p3) => match p_expr_semi(toks, p3) {
                    Err(e) => Err(e),
                    Ok((value, p4)) => Ok((StmtV::Let(name, value), p4)),
                },
            },
        },
    }
}

/// `( expression )`, from the opening parenthesis.
#[verifier::opaque]
pub open spec fn p_condition(toks: Seq<TokenView>, pos: int) -> Parsed<ExprV> {
    match p_expect(toks, pos, TokenKindView::LeftParen) {
        Err(e) => Err(e),
        Ok(p1) => match p_expression(toks, p1) {
            Err(e) => Err(e),
            Ok((c, p2)) => match p_expect(toks, p2, TokenKindView::RightParen) {
                Err(e) => Err(e),
                Ok(p3) => Ok((c, p3)),
            },
        },
    }
}

#[verifier::opaque]
pub open spec fn p_if(toks: Seq<TokenView>, pos: int) -> Parsed<StmtV>
    decreases toks.len() - pos, 30int,
{
    match p_expect(toks, pos, TokenKindView::If) {
        Err(e) => Err(e),
        Ok(p1) => match p_condition(toks, p1) {
            Err(e) => Err(e),
            Ok((c, p2)) => if !forward(toks, pos, p2) {
                Err(stuck(toks, p2))
            } else {
                match p_braced(toks, p2) {
                    Err(e) => Err(e),
                    Ok((body, p3)) => if at_kind(toks, p3, TokenKindView::Else) {
                        let p4 = next_pos(toks, p3);
                        if !forward(toks, pos, p4) {
                            Err(stuck(toks, p4))
                        } else {
                            match p_braced(toks, p4) {
                                Err(e) => Err(e),
                                Ok((else_body, p5)) => Ok((StmtV::If(c, body, else_body), p5)),
                            }
                        }
                    } else {
                        Ok((StmtV::If(c, body, Seq::empty()), p3))
                    },
                }
            },
        },
    }
}

#[verifier::opaque]
pub open spec fn p_while(toks: Seq<TokenView>, pos: int) -> Parsed<StmtV>
    decreases toks.len() - pos, 30int,
{
    match p_expect(toks, pos, TokenKindView::While) {
        Err(e) => Err(e),
        Ok(p1) => match p_condition(toks, p1) {
            Err(e) => Err(e),
            Ok((c, p2)) => if !forward(toks, pos, p2) {
                Err(stuck(toks, p2))
            } else {
                match p_braced(toks, p2) {
                    Err(e) => Err(e),
                    Ok((body, p3)) => Ok((StmtV::While(c, body), p3)),
                }
            },
        },
    }
}

#[verifier::opaque]
pub open spec fn p_return(toks: Seq<TokenView>, pos: int) -> Parsed<StmtV>
    decreases toks.len() - pos, 30int,
{
    match p_expect(toks, pos, TokenKindView::Return) {
        Err(e) => Err(e),
        Ok(p1) => if at_kind(toks, p1, TokenKindView::Semicolon) {
            match p_expect(toks, p1, TokenKindView::Semicolon) {
                Err(e) => Err(e),
                Ok(p2) => Ok((StmtV::Return(None), p2)),
            }
        } else {
            match p_expr_semi(toks, p1) {
                Err(e) => Err(e),
                Ok((v, p2)) => Ok((StmtV::Return(Some(v)), p2)),
            }
        },
    }
}

#[verifier::opaque]
pub open spec fn p_require(toks: Seq<TokenView>, pos: int) -> Parsed<StmtV>
    decreases toks.len() - pos, 30int,
{
    match p_expect(toks, pos, TokenKindView::Require) {
        Err(e) => Err(e),
        Ok(p1) => match p_expect(toks, p1, TokenKindView::LeftParen) {
            Err(e) => Err(e),
            Ok(p2) => match p_expression(toks, p2) {
                Err(e) => Err(e),
                Ok((c, p3)) => match p_expect(toks, p3, TokenKindView::Comma) {
                    Err(e) => Err(e),
                    Ok(p4) => match p_string(toks, p4) {
                        Err(e) => Err(e),
                        Ok((msg, p5)) => match p_expect(toks, p5, TokenKindView::RightParen) {
                            Err(e) => Err(e),
                            Ok(p6) => match p_expect(toks, p6, TokenKindView::Semicolon) {
                                Err(e) => Err(e),
                                Ok(p7) => Ok((StmtV::Require(c, msg), p7)),
                            },
                        },
                    },
                },
            },
        },
    }
}

#[verifier::opaque]
pub open spec fn p_emit(toks: Seq<TokenView>, pos: int) -> Parsed<StmtV>
    decreases toks.len() - pos, 30int,
{
    match p_expect(toks, pos, TokenKindView::Emit) {
        Err(e) => Err(e),
        Ok(p1) => match p_ident(toks, p1) {
            Err(e) => Err(e),
            Ok((name, p2)) => match p_expect(toks, p2, TokenKindView::LeftParen) {
                Err(e) => Err(e),
                Ok(p3) => match p_call_args(toks, p3) {
                    Err(e) => Err(e),
                    Ok((args, p4)) => match p_expect(toks, p4, TokenKindView::Semicolon) {
                        Err(e) => Err(e),
                        Ok(p5) => Ok((StmtV::Emit(name, args), p5)),
                    },
                },
            },
        },
    }
}

#[verifier::opaque]
pub open spec fn p_self_statement(toks: Seq<TokenView>, pos: int) -> Parsed<StmtV>
    decreases toks.len() - pos, 30int,
{
    match p_expect(toks, pos, TokenKindView::Self_) {
        Err(e) => Err(e),
        Ok(p1) => match p_expect(toks, p1, TokenKindView::Dot) {
            Err(e) => Err(e),
            Ok(p2) => match p_ident(toks, p2) {
                Err(e) => Err(e),
                Ok((field, p3)) => if at_kind(toks, p3, TokenKindView::LeftBracket) {
                    let p4 = next_pos(toks, p3);
                    match p_expression(toks, p4) {
                        Err(e) => Err(e),
                        Ok((key, p5)) => match p_expect(toks, p5, TokenKindView::RightBracket) {
                            Err(e) => Err(e),
                            Ok(p6) => match p_expect(toks, p6, TokenKindView::Assign) {
                                Err(e) => Err(e),
                                Ok(p7) => match p_expr_semi(toks, p7) {
                                    Err(e) => Err(e),
                                    Ok((value, p8)) => Ok((StmtV::Assign(TargetV::StateMapEntry(field, key), value), p8)),
                                },
                            },
                        },
                    }
                } else {
                    match p_expect(toks, p3, TokenKindView::Assign) {
                        Err(e) => Err(e),
                        Ok(p4) => match p_expr_semi(toks, p4) {
                            Err(e) => Err(e),
                            Ok((value, p5)) => Ok((StmtV::Assign(TargetV::StateField(field), value), p5)),
                        },
                    }
                },
            },
        },
    }
}

#[verifier::opaque]
pub open spec fn p_assign_or_expression(toks: Seq<TokenView>, pos: int) -> Parsed<StmtV>
    decreases toks.len() - pos, 30int,
{
    match p_ident(toks, pos) {
        Err(e) => Err(e),
        Ok((name, p1)) => if at_kind(toks, p1, TokenKindView::Assign) {
            match p_expr_semi(toks, next_pos(toks, p1)) {
                Err(e) => Err(e),
                Ok((value, p2)) => Ok((StmtV::Assign(TargetV::Variable(name), value), p2)),
            }
        } else if at_kind(toks, p1, TokenKindView::LeftParen) {
            match p_expect(toks, p1, TokenKindView::LeftParen) {
                Err(e) => Err(e),
                Ok(p2) => match p_call_args(toks, p2) {
                    Err(e) => Err(e),
                    Ok((args, p3)) => match p_expect(toks, p3, TokenKindView::Semicolon) {
                        Err(e) => Err(e),
                        Ok(p4) => Ok((StmtV::Expression(ExprV::FunctionCall(name, args)), p4)),
                    },
                },
            }
        } else {
            Err(err_here(toks, p1, "expected '=' or '(' after identifier"@))
        },
    }
}

// ── Declarations ───────────────────────────────────────────────────────────

/// `name: type` pairs separated by commas (at least one).
#[verifier::opaque]
pub open spec fn p_params(toks: Seq<TokenView>, pos: int, acc: Seq<DeclV>) -> Parsed<Seq<DeclV>>
    decreases toks.len() - pos,
{
    match p_ident(toks, pos) {
        Err(e) => Err(e),
        Ok((name, p1)) => match p_expect(toks, p1, TokenKindView::Colon) {
            Err(e) => Err(e),
            Ok(p2) => match p_type(toks, p2) {
                Err(e) => Err(e),
                Ok((ty, p3)) => {
                    let acc2 = acc.push(DeclV { name, ty });
                    if at_kind(toks, p3, TokenKindView::Comma) {
                        let p4 = next_pos(toks, p3);
                        if !forward(toks, pos, p4) {
                            Err(stuck(toks, p4))
                        } else {
                            p_params(toks, p4, acc2)
                        }
                    } else {
                        Ok((acc2, p3))
                    }
                },
            },
        },
    }
}

#[verifier::opaque]
pub open spec fn p_state_var(toks: Seq<TokenView>, pos: int) -> Parsed<DeclV> {
    match p_expect(toks, pos, TokenKindView::State) {
        Err(e) => Err(e),
        Ok(p1) => match p_ident(toks, p1) {
            Err(e) => Err(e),
            Ok((name, p2)) => match p_expect(toks, p2, TokenKindView::Colon) {
                Err(e) => Err(e),
                Ok(p3) => match p_type(toks, p3) {
                    Err(e) => Err(e),
                    Ok((ty, p4)) => match p_expect(toks, p4, TokenKindView::Semicolon) {
                        Err(e) => Err(e),
                        Ok(p5) => Ok((DeclV { name, ty }, p5)),
                    },
                },
            },
        },
    }
}

/// The return type after the parameter list, if an arrow follows.
#[verifier::opaque]
pub open spec fn p_return_type(toks: Seq<TokenView>, pos: int) -> Parsed<Option<TypeV>> {
    if at_kind(toks, pos, TokenKindView::Arrow) {
        match p_type(toks, next_pos(toks, pos)) {
            Err(e) => Err(e),
            Ok((t, p)) => Ok((Some(t), p)),
        }
    } else {
        Ok((None, pos))
    }
}

#[verifier::opaque]
pub open spec fn p_function(toks: Seq<TokenView>, pos: int) -> Parsed<FunctionV> {
    match p_expect(toks, pos, TokenKindView::Fn) {
        Err(e) => Err(e),
        Ok(p1) => match p_ident(toks, p1) {
            Err(e) => Err(e),
            Ok((name, p2)) => match p_expect(toks, p2, TokenKindView::LeftParen) {
                Err(e) => Err(e),
                Ok(p3) => match (if at_kind(toks, p3, TokenKindView::RightParen) {
                    Ok((Seq::empty(), p3))
                } else {
                    p_params(toks, p3, Seq::empty())
                }) {
                    Err(e) => Err(e),
                    Ok((params, p4)) => match p_expect(toks, p4, TokenKindView::RightParen) {
                        Err(e) => Err(e),
                        Ok(p5) => match p_return_type(toks, p5) {
                            Err(e) => Err(e),
                            Ok((ret, p6)) => match p_braced(toks, p6) {
                                Err(e) => Err(e),
                                Ok((body, p7)) => Ok((FunctionV { name, params, return_type: ret, body }, p7)),
                            },
                        },
                    },
                },
            },
        },
    }
}

/// State variables and functions up to a closing brace or the end of input.
#[verifier::opaque]
pub open spec fn p_members(toks: Seq<TokenView>, pos: int, vars: Seq<DeclV>, fns: Seq<FunctionV>) -> Result<(Seq<DeclV>, Seq<FunctionV>, int), ParseErrV>
    decreases toks.len() - pos,
{
    if at_kind(toks, pos, TokenKindView::RightBrace) || at_kind(toks, pos, TokenKindView::Eof) {
        Ok((vars, fns, pos))
    } else if at_kind(toks, pos, TokenKindView::State) {
        match p_state_var(toks, pos) {
            Err(e) => Err(e),
            Ok((v, p1)) => if !forward(toks, pos, p1) {
                Err(stuck(toks, p1))
            } else {
                p_members(toks, p1, vars.push(v), fns)
            },
        }
    } else if at_kind(toks, pos, TokenKindView::Fn) {
        match p_function(toks, pos) {
            Err(e) => Err(e),
            Ok((f, p1)) => if !forward(toks, pos, p1) {
                Err(stuck(toks, p1))
            } else {
                p_members(toks, p1, vars, fns.push(f))
            },
        }
    } else {
        Err(err_here(toks, pos, "expected 'state' or 'fn'"@))
    }
}

#[verifier::opaque]
pub open spec fn p_contract(toks: Seq<TokenView>, pos: int) -> Parsed<ContractV> {
    match p_expect(toks, pos, TokenKindView::Contract) {
        Err(e) => Err(e),
        Ok(p1) => match p_ident(toks, p1) {
            Err(e) => Err(e),
            Ok((name, p2)) => match p_expect(toks, p2, TokenKindView::LeftBrace) {
                Err(e) => Err(e),
                Ok(p3) => match p_members(toks, p3, Seq::empty(), Seq::empty()) {
                    Err(e) => Err(e),
                    Ok((vars, fns, p4)) => match p_expect(toks, p4, TokenKindView::RightBrace) {
                        Err(e) => Err(e),
                        Ok(p5) => Ok((ContractV { name, structs: Seq::empty(), state_vars: vars, functions: fns }, p5)),
                    },
                },
            },
        },
    }
}


/// A token stream as the lexer produces it: not empty, ending with `Eof`.
pub open spec fn stream_ok(toks: Seq<TokenView>) -> bool {
    toks.len() > 0 && toks.last().kind == TokenKindView::Eof
}

/// A parse outcome together with the position the parser stopped at.
pub open spec fn outcome<V>(r: Result<V, ParseErrV>, end: int) -> Parsed<V> {
    match r {
        Ok(v) => Ok((v, end)),
        Err(e) => Err(e),
    }
}


} // verus!
