//! The ThunderScript lexer: turns source text into a stream of tokens.

use vstd::prelude::*;
use crate::text::{decimal, decimal_text};

verus! {

// ── Character classes ──────────────────────────────────────────────────────

/// Whether `c` has the Unicode `Alphabetic` property.
pub uninterp spec fn spec_is_alphabetic(c: char) -> bool;

/// Whether `c` is alphabetic or numeric in the Unicode sense.
pub uninterp spec fn spec_is_alphanumeric(c: char) -> bool;

/// Whether `c` has the Unicode `White_Space` property: tab to carriage
/// return, space, next line, no-break space, ogham space mark, the spaces
/// from en quad to hair space, line and paragraph separators, narrow
/// no-break space, medium mathematical space and ideographic space.
pub open spec fn spec_is_whitespace(c: char) -> bool {
    let n = c as u32;
    (0x09 <= n && n <= 0x0D) || n == 0x20 || n == 0x85 || n == 0xA0 || n == 0x1680 || (0x2000 <= n && n <= 0x200A)
        || n == 0x2028 || n == 0x2029 || n == 0x202F || n == 0x205F || n == 0x3000
}

/// An ASCII letter.
pub open spec fn is_ascii_letter(c: char) -> bool {
    ('a' <= c && c <= 'z') || ('A' <= c && c <= 'Z')
}

/// `char::is_alphabetic`.
///
/// Trusted: the answer depends on `c` alone, and an ASCII character is
/// alphabetic exactly when it is a letter.
#[verifier::external_body]
fn is_alphabetic(c: char) -> (r: bool)
    ensures
        r == spec_is_alphabetic(c),
        (c as u32) < 128 ==> (r <==> is_ascii_letter(c)),
{
    c.is_alphabetic()
}

/// `char::is_alphanumeric`.
///
/// Trusted: the answer depends on `c` alone; (as std documents) every
/// alphabetic character is alphanumeric; and an ASCII character is
/// alphanumeric exactly when it is a letter or a digit.
#[verifier::external_body]
fn is_alphanumeric(c: char) -> (r: bool)
    ensures
        r == spec_is_alphanumeric(c),
        spec_is_alphabetic(c) ==> r,
        (c as u32) < 128 ==> (r <==> is_ascii_letter(c) || ('0' <= c && c <= '9')),
{
    c.is_alphanumeric()
}

/// Whether `c` is white space (see `spec_is_whitespace`).
fn is_whitespace(c: char) -> (r: bool)
    ensures
        r == spec_is_whitespace(c),
{
    let n = c as u32;
    (0x09 <= n && n <= 0x0D) || n == 0x20 || n == 0x85 || n == 0xA0 || n == 0x1680 || (0x2000 <= n && n <= 0x200A)
        || n == 0x2028 || n == 0x2029 || n == 0x202F || n == 0x205F || n == 0x3000
}

/// The characters of a string, in order.
pub(crate) fn chars_of(s: &str) -> (v: Vec<char>)
    ensures
        v@ == s@,
{
    broadcast use vstd::string::axiom_spec_iter;
    let mut v: Vec<char> = Vec::new();
    for c in it: s.chars()
        invariant
            v@ == it.seq().take(it.index() as int),
    {
        v.push(c);
    }
    v
}

/// A string made of the given characters (`String::from_iter`).
#[verifier::external_body]
pub fn string_of(cs: &[char]) -> (s: String)
    ensures
        s@ == cs@,
{
    cs.iter().collect()
}

/// A letter, as `char::is_alphabetic` decides: for an ASCII character,
/// whether it is `a`–`z` or `A`–`Z`.
pub open spec fn letter(c: char) -> bool {
    if (c as u32) < 128 {
        is_ascii_letter(c)
    } else {
        spec_is_alphabetic(c)
    }
}

/// A letter or digit, as `char::is_alphanumeric` decides: for an ASCII
/// character, whether it is a letter or `0`–`9`.
pub open spec fn letter_or_digit(c: char) -> bool {
    if (c as u32) < 128 {
        is_ascii_letter(c) || ('0' <= c && c <= '9')
    } else {
        spec_is_alphanumeric(c)
    }
}

/// Whether `c` is a letter (see `letter`).
fn is_letter(c: char) -> (r: bool)
    ensures
        r == letter(c),
{
    if (c as u32) < 128 {
        ('a' <= c && c <= 'z') || ('A' <= c && c <= 'Z')
    } else {
        is_alphabetic(c)
    }
}

/// Whether `c` is a letter or digit (see `letter_or_digit`).
fn is_letter_or_digit(c: char) -> (r: bool)
    ensures
        r == letter_or_digit(c),
{
    if (c as u32) < 128 {
        ('a' <= c && c <= 'z') || ('A' <= c && c <= 'Z') || ('0' <= c && c <= '9')
    } else {
        is_alphanumeric(c)
    }
}

/// An ASCII decimal digit.
pub open spec fn spec_is_digit(c: char) -> bool {
    '0' <= c && c <= '9'
}

fn is_digit(c: char) -> (r: bool)
    ensures
        r == spec_is_digit(c),
{
    '0' <= c && c <= '9'
}

// ── Token Types ────────────────────────────────────────────────────────────

/// All possible token types in ThunderScript.
#[derive(Debug, Clone, PartialEq)]
pub enum TokenKind {
    Contract,
    Fn,
    Let,
    If,
    Else,
    While,
    Return,
    State,
    Emit,
    Require,
    /// `self`
    Self_,
    True,
    False,
    U64,
    Bool,
    Address,
    StringType,
    MapType,
    IntLiteral(u64),
    StringLiteral(String),
    Identifier(String),
    /// `+`
    Plus,
    /// `-`
    Minus,
    /// `*`
    Star,
    /// `/`
    Slash,
    /// `%`
    Percent,
    /// `==`
    Eq,
    /// `!=`
    Neq,
    /// `<`
    Lt,
    /// `>`
    Gt,
    /// `<=`
    Lte,
    /// `>=`
    Gte,
    /// `&&`
    And,
    /// `||`
    Or,
    /// `!`
    Not,
    /// `=`
    Assign,
    /// `(`
    LeftParen,
    /// `)`
    RightParen,
    /// `{`
    LeftBrace,
    /// `}`
    RightBrace,
    /// `[`
    LeftBracket,
    /// `]`
    RightBracket,
    /// `,`
    Comma,
    /// `;`
    Semicolon,
    /// `:`
    Colon,
    /// `.`
    Dot,
    /// `->`
    Arrow,
    Eof,
}

/// The abstract value of a token kind.
pub ghost enum TokenKindView {
    Contract,
    Fn,
    Let,
    If,
    Else,
    While,
    Return,
    State,
    Emit,
    Require,
    Self_,
    True,
    False,
    U64,
    Bool,
    Address,
    StringType,
    MapType,
    IntLiteral(u64),
    StringLiteral(Seq<char>),
    Identifier(Seq<char>),
    Plus,
    Minus,
    Star,
    Slash,
    Percent,
    Eq,
    Neq,
    Lt,
    Gt,
    Lte,
    Gte,
    And,
    Or,
    Not,
    Assign,
    LeftParen,
    RightParen,
    LeftBrace,
    RightBrace,
    LeftBracket,
    RightBracket,
    Comma,
    Semicolon,
    Colon,
    Dot,
    Arrow,
    Eof,
}

impl View for TokenKind {
    type V = TokenKindView;

    open spec fn view(&self) -> TokenKindView {
        match self {
            TokenKind::Contract => TokenKindView::Contract,
            TokenKind::Fn => TokenKindView::Fn,
            TokenKind::Let => TokenKindView::Let,
            TokenKind::If => TokenKindView::If,
            TokenKind::Else => TokenKindView::Else,
            TokenKind::While => TokenKindView::While,
            TokenKind::Return => TokenKindView::Return,
            TokenKind::State => TokenKindView::State,
            TokenKind::Emit => TokenKindView::Emit,
            TokenKind::Require => TokenKindView::Require,
            TokenKind::Self_ => TokenKindView::Self_,
            TokenKind::True => TokenKindView::True,
            TokenKind::False => TokenKindView::False,
            TokenKind::U64 => TokenKindView::U64,
            TokenKind::Bool => TokenKindView::Bool,
            TokenKind::Address => TokenKindView::Address,
            TokenKind::StringType => TokenKindView::StringType,
            TokenKind::MapType => TokenKindView::MapType,
            TokenKind::IntLiteral(v) => TokenKindView::IntLiteral(*v),
            TokenKind::StringLiteral(s) => TokenKindView::StringLiteral(s@),
            TokenKind::Identifier(s) => TokenKindView::Identifier(s@),
            TokenKind::Plus => TokenKindView::Plus,
            TokenKind::Minus => TokenKindView::Minus,
            TokenKind::Star => TokenKindView::Star,
            TokenKind::Slash => TokenKindView::Slash,
            TokenKind::Percent => TokenKindView::Percent,
            TokenKind::Eq => TokenKindView::Eq,
            TokenKind::Neq => TokenKindView::Neq,
            TokenKind::Lt => TokenKindView::Lt,
            TokenKind::Gt => TokenKindView::Gt,
            TokenKind::Lte => TokenKindView::Lte,
            TokenKind::Gte => TokenKindView::Gte,
            TokenKind::And => TokenKindView::And,
            TokenKind::Or => TokenKindView::Or,
            TokenKind::Not => TokenKindView::Not,
            TokenKind::Assign => TokenKindView::Assign,
            TokenKind::LeftParen => TokenKindView::LeftParen,
            TokenKind::RightParen => TokenKindView::RightParen,
            TokenKind::LeftBrace => TokenKindView::LeftBrace,
            TokenKind::RightBrace => TokenKindView::RightBrace,
            TokenKind::LeftBracket => TokenKindView::LeftBracket,
            TokenKind::RightBracket => TokenKindView::RightBracket,
            TokenKind::Comma => TokenKindView::Comma,
            TokenKind::Semicolon => TokenKindView::Semicolon,
            TokenKind::Colon => TokenKindView::Colon,
            TokenKind::Dot => TokenKindView::Dot,
            TokenKind::Arrow => TokenKindView::Arrow,
            TokenKind::Eof => TokenKindView::Eof,
        }
    }
}

/// Which variant a token kind is (payloads ignored).
pub open spec fn kind_tag(k: TokenKindView) -> u8 {
    match k {
        TokenKindView::Contract => 0,
        TokenKindView::Fn => 1,
        TokenKindView::Let => 2,
        TokenKindView::If => 3,
        TokenKindView::Else => 4,
        TokenKindView::While => 5,
        TokenKindView::Return => 6,
        TokenKindView::State => 7,
        TokenKindView::Emit => 8,
        TokenKindView::Require => 9,
        TokenKindView::Self_ => 10,
        TokenKindView::True => 11,
        TokenKindView::False => 12,
        TokenKindView::U64 => 13,
        TokenKindView::Bool => 14,
        TokenKindView::Address => 15,
        TokenKindView::StringType => 16,
        TokenKindView::MapType => 17,
        TokenKindView::IntLiteral(..) => 18,
        TokenKindView::StringLiteral(..) => 19,
        TokenKindView::Identifier(..) => 20,
        TokenKindView::Plus => 21,
        TokenKindView::Minus => 22,
        TokenKindView::Star => 23,
        TokenKindView::Slash => 24,
        TokenKindView::Percent => 25,
        TokenKindView::Eq => 26,
        TokenKindView::Neq => 27,
        TokenKindView::Lt => 28,
        TokenKindView::Gt => 29,
        TokenKindView::Lte => 30,
        TokenKindView::Gte => 31,
        TokenKindView::And => 32,
        TokenKindView::Or => 33,
        TokenKindView::Not => 34,
        TokenKindView::Assign => 35,
        TokenKindView::LeftParen => 36,
        TokenKindView::RightParen => 37,
        TokenKindView::LeftBrace => 38,
        TokenKindView::RightBrace => 39,
        TokenKindView::LeftBracket => 40,
        TokenKindView::RightBracket => 41,
        TokenKindView::Comma => 42,
        TokenKindView::Semicolon => 43,
        TokenKindView::Colon => 44,
        TokenKindView::Dot => 45,
        TokenKindView::Arrow => 46,
        TokenKindView::Eof => 47,
    }
}

impl TokenKind {
    /// Which variant this is (payloads ignored).
    pub fn tag(&self) -> (t: u8)
        ensures
            t == kind_tag(self@),
    {
        match self {
            TokenKind::Contract => 0,
            TokenKind::Fn => 1,
            TokenKind::Let => 2,
            TokenKind::If => 3,
            TokenKind::Else => 4,
            TokenKind::While => 5,
            TokenKind::Return => 6,
            TokenKind::State => 7,
            TokenKind::Emit => 8,
            TokenKind::Require => 9,
            TokenKind::Self_ => 10,
            TokenKind::True => 11,
            TokenKind::False => 12,
            TokenKind::U64 => 13,
            TokenKind::Bool => 14,
            TokenKind::Address => 15,
            TokenKind::StringType => 16,
            TokenKind::MapType => 17,
            TokenKind::IntLiteral(..) => 18,
            TokenKind::StringLiteral(..) => 19,
            TokenKind::Identifier(..) => 20,
            TokenKind::Plus => 21,
            TokenKind::Minus => 22,
            TokenKind::Star => 23,
            TokenKind::Slash => 24,
            TokenKind::Percent => 25,
            TokenKind::Eq => 26,
            TokenKind::Neq => 27,
            TokenKind::Lt => 28,
            TokenKind::Gt => 29,
            TokenKind::Lte => 30,
            TokenKind::Gte => 31,
            TokenKind::And => 32,
            TokenKind::Or => 33,
            TokenKind::Not => 34,
            TokenKind::Assign => 35,
            TokenKind::LeftParen => 36,
            TokenKind::RightParen => 37,
            TokenKind::LeftBrace => 38,
            TokenKind::RightBrace => 39,
            TokenKind::LeftBracket => 40,
            TokenKind::RightBracket => 41,
            TokenKind::Comma => 42,
            TokenKind::Semicolon => 43,
            TokenKind::Colon => 44,
            TokenKind::Dot => 45,
            TokenKind::Arrow => 46,
            TokenKind::Eof => 47,
        }
    }
}

/// A token produced by the lexer.
#[derive(Debug, Clone, PartialEq)]
pub struct Token {
    pub kind: TokenKind,
    pub lexeme: String,
    pub line: usize,
    pub column: usize,
}

/// The abstract value of a token.
pub ghost struct TokenView {
    pub kind: TokenKindView,
    pub lexeme: Seq<char>,
    pub line: int,
    pub column: int,
}

impl View for Token {
    type V = TokenView;

    open spec fn view(&self) -> TokenView {
        TokenView { kind: self.kind@, lexeme: self.lexeme@, line: self.line as int, column: self.column as int }
    }
}

/// The views of a list of tokens.
pub open spec fn tokens_view(ts: Seq<Token>) -> Seq<TokenView> {
    ts.map_values(|t: Token| t@)
}

/// A lexical error with its position.
#[derive(Debug)]
pub struct LexerError {
    pub message: String,
    pub line: usize,
    pub column: usize,
}

/// The abstract value of a lexical error.
pub ghost struct LexErrorView {
    pub message: Seq<char>,
    pub line: int,
    pub column: int,
}

impl View for LexerError {
    type V = LexErrorView;

    open spec fn view(&self) -> LexErrorView {
        LexErrorView { message: self.message@, line: self.line as int, column: self.column as int }
    }
}

/// The text of a lexical error: position and message.
pub open spec fn lex_error_text(e: LexErrorView) -> Seq<char> {
    "Lexer error at "@ + decimal(e.line as nat) + ":"@ + decimal(e.column as nat) + ": "@ + e.message
}

/// The display text of a token kind: `contract`, `fn` and `let` as
/// written, identifiers and numbers as themselves, string literals in double
/// quotes, `EOF` for the end, and the name of any other kind (`kind_name`).
pub open spec fn token_kind_text(k: TokenKindView) -> Seq<char> {
    match k {
        TokenKindView::Contract => "contract"@,
        TokenKindView::Fn => "fn"@,
        TokenKindView::Let => "let"@,
        TokenKindView::Identifier(name) => name,
        TokenKindView::IntLiteral(v) => decimal(v as nat),
        TokenKindView::StringLiteral(text) => "\""@ + text + "\""@,
        TokenKindView::Eof => "EOF"@,
        _ => crate::grammar::kind_name(k),
    }
}

impl TokenKind {
    /// The kind as display text (see `token_kind_text`).
    pub fn to_string(&self) -> (s: String)
        ensures
            s@ == token_kind_text(self@),
    {
        match self {
            TokenKind::Contract => String::from_str("contract"),
            TokenKind::Fn => String::from_str("fn"),
            TokenKind::Let => String::from_str("let"),
            TokenKind::Identifier(name) => name.clone(),
            TokenKind::IntLiteral(v) => crate::text::decimal_text_u64(*v),
            TokenKind::StringLiteral(text) => {
                let mut s = String::from_str("\"");
                s.append(text.as_str());
                s.append("\"");
                s
            },
            TokenKind::Eof => String::from_str("EOF"),
            _ => crate::parser::kind_name_text(self),
        }
    }
}

impl LexerError {
    /// The error as text: `Lexer error at LINE:COLUMN: MESSAGE`.
    pub fn to_string(&self) -> (s: String)
        ensures
            s@ == lex_error_text(self@),
    {
        let mut s = String::from_str("Lexer error at ");
        s.append(decimal_text(self.line).as_str());
        s.append(":");
        s.append(decimal_text(self.column).as_str());
        s.append(": ");
        s.append(self.message.as_str());
        s
    }
}


// ── Abstract lexer ─────────────────────────────────────────────────────────

/// A position in the source: index, line and column.
pub ghost struct Cursor {
    pub pos: int,
    pub line: int,
    pub column: int,
}

/// The character at `i`, or NUL past the end.
pub open spec fn char_at(src: Seq<char>, i: int) -> char {
    if 0 <= i < src.len() { src[i] } else { '\0' }
}

/// Move past one character: a newline starts the next line.
pub open spec fn adv(src: Seq<char>, c: Cursor) -> Cursor {
    if c.pos < 0 || c.pos >= src.len() {
        c
    } else if src[c.pos] == '\n' {
        Cursor { pos: c.pos + 1, line: c.line + 1, column: 1 }
    } else {
        Cursor { pos: c.pos + 1, column: c.column + 1, ..c }
    }
}

/// Skip whitespace.
pub open spec fn skip_ws(src: Seq<char>, c: Cursor) -> Cursor
    decreases src.len() - c.pos,
{
    if 0 <= c.pos < src.len() && spec_is_whitespace(src[c.pos]) {
        skip_ws(src, adv(src, c))
    } else {
        c
    }
}

/// Skip to the end of the line (the newline is not consumed).
pub open spec fn skip_line(src: Seq<char>, c: Cursor) -> Cursor
    decreases src.len() - c.pos,
{
    if 0 <= c.pos < src.len() && src[c.pos] != '\n' {
        skip_line(src, adv(src, c))
    } else {
        c
    }
}

/// Skip one `//` comment.
pub open spec fn skip_comment(src: Seq<char>, c: Cursor) -> Cursor {
    if 0 <= c.pos < src.len() && src[c.pos] == '/' && char_at(src, c.pos + 1) == '/' {
        skip_line(src, c)
    } else {
        c
    }
}

/// Whether a `//` comment starts at `c`.
pub open spec fn at_comment(src: Seq<char>, c: Cursor) -> bool {
    0 <= c.pos < src.len() && src[c.pos] == '/' && char_at(src, c.pos + 1) == '/'
}

/// Skip whitespace and `//` comments until neither is left.
pub open spec fn skip_trivia(src: Seq<char>, c: Cursor) -> Cursor
    decreases src.len() - c.pos,
{
    let a = skip_ws(src, c);
    if at_comment(src, a) {
        proof {
            lemma_ws_forward(src, c);
            lemma_comment_forward(src, a);
        }
        skip_trivia(src, skip_line(src, a))
    } else {
        a
    }
}

/// Move past decimal digits.
pub open spec fn scan_digits(src: Seq<char>, c: Cursor) -> Cursor
    decreases src.len() - c.pos,
{
    if 0 <= c.pos < src.len() && spec_is_digit(src[c.pos]) {
        scan_digits(src, adv(src, c))
    } else {
        c
    }
}

/// Move past identifier characters.
pub open spec fn scan_word(src: Seq<char>, c: Cursor) -> Cursor
    decreases src.len() - c.pos,
{
    if 0 <= c.pos < src.len() && (letter_or_digit(src[c.pos]) || src[c.pos] == '_') {
        scan_word(src, adv(src, c))
    } else {
        c
    }
}

/// The value of a string of decimal digits.
pub open spec fn digits_value(d: Seq<char>) -> int
    decreases d.len(),
{
    if d.len() == 0 {
        0
    } else {
        digits_value(d.drop_last()) * 10 + (d.last() as int - '0' as int)
    }
}

/// The character an escape sequence stands for.
pub open spec fn unescape(e: char) -> char {
    if e == 'n' {
        '\n'
    } else if e == 't' {
        '\t'
    } else {
        e
    }
}

/// Scan the body of a string literal after its opening quote, collecting the
/// value; on success the cursor is past the closing quote.
pub open spec fn scan_string(src: Seq<char>, c: Cursor, acc: Seq<char>) -> Result<(Seq<char>, Cursor), (Seq<char>, Cursor)>
    decreases src.len() - c.pos,
{
    if c.pos < 0 || c.pos >= src.len() {
        Err(("unterminated string literal"@, c))
    } else if src[c.pos] == '"' {
        Ok((acc, adv(src, c)))
    } else if src[c.pos] == '\\' {
        let c1 = adv(src, c);
        if c1.pos >= src.len() {
            Err(("unterminated string escape"@, c1))
        } else {
            scan_string(src, adv(src, c1), acc.push(unescape(src[c1.pos])))
        }
    } else {
        scan_string(src, adv(src, c), acc.push(src[c.pos]))
    }
}

/// The token kind of an identifier-shaped word: a keyword or an identifier.
pub open spec fn keyword_kind(word: Seq<char>) -> TokenKindView {
    if word == "contract"@ {
        TokenKindView::Contract
    } else if word == "fn"@ {
        TokenKindView::Fn
    } else if word == "let"@ {
        TokenKindView::Let
    } else if word == "if"@ {
        TokenKindView::If
    } else if word == "else"@ {
        TokenKindView::Else
    } else if word == "while"@ {
        TokenKindView::While
    } else if word == "return"@ {
        TokenKindView::Return
    } else if word == "state"@ {
        TokenKindView::State
    } else if word == "emit"@ {
        TokenKindView::Emit
    } else if word == "require"@ {
        TokenKindView::Require
    } else if word == "self"@ {
        TokenKindView::Self_
    } else if word == "true"@ {
        TokenKindView::True
    } else if word == "false"@ {
        TokenKindView::False
    } else if word == "u64"@ {
        TokenKindView::U64
    } else if word == "bool"@ {
        TokenKindView::Bool
    } else if word == "address"@ {
        TokenKindView::Address
    } else if word == "string"@ {
        TokenKindView::StringType
    } else if word == "map"@ {
        TokenKindView::MapType
    } else {
        TokenKindView::Identifier(word)
    }
}

/// The reserved words of the language, each with the token it is read as.
pub open spec fn reserved_words() -> Seq<(Seq<char>, TokenKindView)> {
    seq![
        ("contract"@, TokenKindView::Contract),
        ("fn"@, TokenKindView::Fn),
        ("let"@, TokenKindView::Let),
        ("if"@, TokenKindView::If),
        ("else"@, TokenKindView::Else),
        ("while"@, TokenKindView::While),
        ("return"@, TokenKindView::Return),
        ("state"@, TokenKindView::State),
        ("emit"@, TokenKindView::Emit),
        ("require"@, TokenKindView::Require),
        ("self"@, TokenKindView::Self_),
        ("true"@, TokenKindView::True),
        ("false"@, TokenKindView::False),
        ("u64"@, TokenKindView::U64),
        ("bool"@, TokenKindView::Bool),
        ("address"@, TokenKindView::Address),
        ("string"@, TokenKindView::StringType),
        ("map"@, TokenKindView::MapType),
    ]
}

/// Law: the lexer reads each reserved word as its own keyword token, never
/// as an identifier; no two reserved words give the same token; and every
/// other word is read as an identifier carrying the word itself.
pub proof fn lemma_keywords(word: Seq<char>)
    ensures
        forall|i: int| 0 <= i < reserved_words().len() ==> keyword_kind(#[trigger] reserved_words()[i].0) == reserved_words()[i].1,
        forall|i: int| 0 <= i < reserved_words().len() ==> !((#[trigger] reserved_words()[i]).1 is Identifier),
        forall|i: int, j: int| 0 <= i < j < reserved_words().len() ==> (#[trigger] reserved_words()[i]).1
            != (#[trigger] reserved_words()[j]).1,
        (forall|i: int| 0 <= i < reserved_words().len() ==> word != (#[trigger] reserved_words()[i]).0)
            ==> keyword_kind(word) == TokenKindView::Identifier(word),
{
    reveal_strlit("contract");
    reveal_strlit("fn");
    reveal_strlit("let");
    reveal_strlit("if");
    reveal_strlit("else");
    reveal_strlit("while");
    reveal_strlit("return");
    reveal_strlit("state");
    reveal_strlit("emit");
    reveal_strlit("require");
    reveal_strlit("self");
    reveal_strlit("true");
    reveal_strlit("false");
    reveal_strlit("u64");
    reveal_strlit("bool");
    reveal_strlit("address");
    reveal_strlit("string");
    reveal_strlit("map");
    assert("contract"@.len() == 8 && "contract"@[0] == 'c' && "contract"@[1] == 'o');
    assert("fn"@.len() == 2 && "fn"@[0] == 'f' && "fn"@[1] == 'n');
    assert("let"@.len() == 3 && "let"@[0] == 'l' && "let"@[1] == 'e');
    assert("if"@.len() == 2 && "if"@[0] == 'i' && "if"@[1] == 'f');
    assert("else"@.len() == 4 && "else"@[0] == 'e' && "else"@[1] == 'l');
    assert("while"@.len() == 5 && "while"@[0] == 'w' && "while"@[1] == 'h');
    assert("return"@.len() == 6 && "return"@[0] == 'r' && "return"@[1] == 'e');
    assert("state"@.len() == 5 && "state"@[0] == 's' && "state"@[1] == 't');
    assert("emit"@.len() == 4 && "emit"@[0] == 'e' && "emit"@[1] == 'm');
    assert("require"@.len() == 7 && "require"@[0] == 'r' && "require"@[1] == 'e');
    assert("self"@.len() == 4 && "self"@[0] == 's' && "self"@[1] == 'e');
    assert("true"@.len() == 4 && "true"@[0] == 't' && "true"@[1] == 'r');
    assert("false"@.len() == 5 && "false"@[0] == 'f' && "false"@[1] == 'a');
    assert("u64"@.len() == 3 && "u64"@[0] == 'u' && "u64"@[1] == '6');
    assert("bool"@.len() == 4 && "bool"@[0] == 'b' && "bool"@[1] == 'o');
    assert("address"@.len() == 7 && "address"@[0] == 'a' && "address"@[1] == 'd');
    assert("string"@.len() == 6 && "string"@[0] == 's' && "string"@[1] == 't');
    assert("map"@.len() == 3 && "map"@[0] == 'm' && "map"@[1] == 'a');
    let r = reserved_words();
    assert(r.len() == 18);
    assert(keyword_kind("contract"@) == TokenKindView::Contract);
    assert(keyword_kind("fn"@) == TokenKindView::Fn);
    assert(keyword_kind("let"@) == TokenKindView::Let);
    assert(keyword_kind("if"@) == TokenKindView::If);
    assert(keyword_kind("else"@) == TokenKindView::Else);
    assert(keyword_kind("while"@) == TokenKindView::While);
    assert(keyword_kind("return"@) == TokenKindView::Return);
    assert(keyword_kind("state"@) == TokenKindView::State);
    assert(keyword_kind("emit"@) == TokenKindView::Emit);
    assert(keyword_kind("require"@) == TokenKindView::Require);
    assert(keyword_kind("self"@) == TokenKindView::Self_);
    assert(keyword_kind("true"@) == TokenKindView::True);
    assert(keyword_kind("false"@) == TokenKindView::False);
    assert(keyword_kind("u64"@) == TokenKindView::U64);
    assert(keyword_kind("bool"@) == TokenKindView::Bool);
    assert(keyword_kind("address"@) == TokenKindView::Address);
    assert(keyword_kind("string"@) == TokenKindView::StringType);
    assert(keyword_kind("map"@) == TokenKindView::MapType);
    assert forall|i: int| 0 <= i < r.len() implies keyword_kind(#[trigger] r[i].0) == r[i].1 by {
        if i == 0 { assert(r[0] == ("contract"@, TokenKindView::Contract)); }
        if i == 1 { assert(r[1] == ("fn"@, TokenKindView::Fn)); }
        if i == 2 { assert(r[2] == ("let"@, TokenKindView::Let)); }
        if i == 3 { assert(r[3] == ("if"@, TokenKindView::If)); }
        if i == 4 { assert(r[4] == ("else"@, TokenKindView::Else)); }
        if i == 5 { assert(r[5] == ("while"@, TokenKindView::While)); }
        if i == 6 { assert(r[6] == ("return"@, TokenKindView::Return)); }
        if i == 7 { assert(r[7] == ("state"@, TokenKindView::State)); }
        if i == 8 { assert(r[8] == ("emit"@, TokenKindView::Emit)); }
        if i == 9 { assert(r[9] == ("require"@, TokenKindView::Require)); }
        if i == 10 { assert(r[10] == ("self"@, TokenKindView::Self_)); }
        if i == 11 { assert(r[11] == ("true"@, TokenKindView::True)); }
        if i == 12 { assert(r[12] == ("false"@, TokenKindView::False)); }
        if i == 13 { assert(r[13] == ("u64"@, TokenKindView::U64)); }
        if i == 14 { assert(r[14] == ("bool"@, TokenKindView::Bool)); }
        if i == 15 { assert(r[15] == ("address"@, TokenKindView::Address)); }
        if i == 16 { assert(r[16] == ("string"@, TokenKindView::StringType)); }
        if i == 17 { assert(r[17] == ("map"@, TokenKindView::MapType)); }
    }
    if forall|i: int| 0 <= i < r.len() ==> word != (#[trigger] r[i]).0 {
        assert(word != r[0].0);
        assert(word != r[1].0);
        assert(word != r[2].0);
        assert(word != r[3].0);
        assert(word != r[4].0);
        assert(word != r[5].0);
        assert(word != r[6].0);
        assert(word != r[7].0);
        assert(word != r[8].0);
        assert(word != r[9].0);
        assert(word != r[10].0);
        assert(word != r[11].0);
        assert(word != r[12].0);
        assert(word != r[13].0);
        assert(word != r[14].0);
        assert(word != r[15].0);
        assert(word != r[16].0);
        assert(word != r[17].0);
    }
}

/// An error at a cursor.
pub open spec fn lex_error(message: Seq<char>, c: Cursor) -> LexErrorView {
    LexErrorView { message, line: c.line, column: c.column }
}

/// A token at a cursor.
pub open spec fn token_at(kind: TokenKindView, lexeme: Seq<char>, c: Cursor) -> TokenView {
    TokenView { kind, lexeme, line: c.line, column: c.column }
}

/// A one-character token.
pub open spec fn single(src: Seq<char>, c: Cursor, kind: TokenKindView) -> Result<(TokenView, Cursor), LexErrorView> {
    Ok((token_at(kind, seq![src[c.pos]], c), adv(src, c)))
}

/// A two-character token when the next character is `second`, otherwise the
/// one-character `alone` (or `error` when there is none).
pub open spec fn pair(
    src: Seq<char>,
    c: Cursor,
    second: char,
    both: TokenKindView,
    lexeme: Seq<char>,
    alone: Option<TokenKindView>,
    error: Seq<char>,
) -> Result<(TokenView, Cursor), LexErrorView> {
    if char_at(src, c.pos + 1) == second {
        Ok((token_at(both, lexeme, c), adv(src, adv(src, c))))
    } else {
        match alone {
            Some(k) => single(src, c, k),
            None => Err(lex_error(error, c)),
        }
    }
}

/// The token starting at `c` (which is inside the source).
pub open spec fn spec_next_token(src: Seq<char>, c: Cursor) -> Result<(TokenView, Cursor), LexErrorView> {
    let ch = char_at(src, c.pos);
    if spec_is_digit(ch) {
        let e = scan_digits(src, c);
        let digits = src.subrange(c.pos, e.pos);
        if digits_value(digits) > u64::MAX {
            Err(lex_error("invalid number literal: "@ + digits, e))
        } else {
            Ok((TokenView { kind: TokenKindView::IntLiteral(digits_value(digits) as u64), lexeme: digits, line: e.line, column: c.column }, e))
        }
    } else if letter(ch) || ch == '_' {
        let e = scan_word(src, adv(src, c));
        let word = src.subrange(c.pos, e.pos);
        Ok((TokenView { kind: keyword_kind(word), lexeme: word, line: e.line, column: c.column }, e))
    } else if ch == '"' {
        match scan_string(src, adv(src, c), Seq::empty()) {
            Ok((v, e)) => Ok((TokenView { kind: TokenKindView::StringLiteral(v), lexeme: "\""@ + v + "\""@, line: e.line, column: c.column }, e)),
            Err((m, e)) => Err(lex_error(m, e)),
        }
    } else if ch == '+' {
        single(src, c, TokenKindView::Plus)
    } else if ch == '*' {
        single(src, c, TokenKindView::Star)
    } else if ch == '%' {
        single(src, c, TokenKindView::Percent)
    } else if ch == '(' {
        single(src, c, TokenKindView::LeftParen)
    } else if ch == ')' {
        single(src, c, TokenKindView::RightParen)
    } else if ch == '{' {
        single(src, c, TokenKindView::LeftBrace)
    } else if ch == '}' {
        single(src, c, TokenKindView::RightBrace)
    } else if ch == '[' {
        single(src, c, TokenKindView::LeftBracket)
    } else if ch == ']' {
        single(src, c, TokenKindView::RightBracket)
    } else if ch == ',' {
        single(src, c, TokenKindView::Comma)
    } else if ch == ';' {
        single(src, c, TokenKindView::Semicolon)
    } else if ch == ':' {
        single(src, c, TokenKindView::Colon)
    } else if ch == '.' {
        single(src, c, TokenKindView::Dot)
    } else if ch == '-' {
        pair(src, c, '>', TokenKindView::Arrow, "->"@, Some(TokenKindView::Minus), Seq::empty())
    } else if ch == '=' {
        pair(src, c, '=', TokenKindView::Eq, "=="@, Some(TokenKindView::Assign), Seq::empty())
    } else if ch == '!' {
        pair(src, c, '=', TokenKindView::Neq, "!="@, Some(TokenKindView::Not), Seq::empty())
    } else if ch == '<' {
        pair(src, c, '=', TokenKindView::Lte, "<="@, Some(TokenKindView::Lt), Seq::empty())
    } else if ch == '>' {
        pair(src, c, '=', TokenKindView::Gte, ">="@, Some(TokenKindView::Gt), Seq::empty())
    } else if ch == '&' {
        pair(src, c, '&', TokenKindView::And, "&&"@, None, "unexpected character '&'"@)
    } else if ch == '|' {
        pair(src, c, '|', TokenKindView::Or, "||"@, None, "unexpected character '|'"@)
    } else if ch == '/' {
        single(src, c, TokenKindView::Slash)
    } else {
        Err(lex_error("unexpected character '"@ + seq![ch] + "'"@, c))
    }
}

/// Tokens from `c` to the end, closed by an end-of-file token; or the first
/// lexical error.
pub open spec fn spec_tokenize(src: Seq<char>, c: Cursor) -> Result<Seq<TokenView>, LexErrorView>
    decreases src.len() - c.pos,
    when 0 <= c.pos
{
    let c1 = skip_trivia(src, c);
    if c1.pos >= src.len() {
        Ok(seq![token_at(TokenKindView::Eof, Seq::empty(), c1)])
    } else {
        match spec_next_token(src, c1) {
            Err(e) => Err(e),
            Ok((t, c2)) => {
                proof {
                    lemma_trivia_moves_forward(src, c);
                    lemma_next_token_moves_forward(src, c1);
                }
                match spec_tokenize(src, c2) {
                    Ok(ts) => Ok(seq![t] + ts),
                    Err(e) => Err(e),
                }
            },
        }
    }
}

// ── Lemmas about cursors ───────────────────────────────────────────────────

/// A well-formed cursor for a source.
pub open spec fn cursor_ok(src: Seq<char>, c: Cursor) -> bool {
    &&& 0 <= c.pos <= src.len()
    &&& c.line >= 1
    &&& c.column >= 1
    &&& c.line + c.column <= c.pos + 2
}

proof fn lemma_adv(src: Seq<char>, c: Cursor)
    requires
        cursor_ok(src, c),
    ensures
        cursor_ok(src, adv(src, c)),
        c.pos < src.len() ==> adv(src, c).pos == c.pos + 1,
        c.pos >= src.len() ==> adv(src, c) == c,
{
}

proof fn lemma_skip_ws(src: Seq<char>, c: Cursor)
    requires
        cursor_ok(src, c),
    ensures
        cursor_ok(src, skip_ws(src, c)),
        skip_ws(src, c).pos >= c.pos,
    decreases src.len() - c.pos,
{
    if 0 <= c.pos < src.len() && spec_is_whitespace(src[c.pos]) {
        lemma_adv(src, c);
        lemma_skip_ws(src, adv(src, c));
    }
}

proof fn lemma_skip_line(src: Seq<char>, c: Cursor)
    requires
        cursor_ok(src, c),
    ensures
        cursor_ok(src, skip_line(src, c)),
        skip_line(src, c).pos >= c.pos,
    decreases src.len() - c.pos,
{
    if 0 <= c.pos < src.len() && src[c.pos] != '\n' {
        lemma_adv(src, c);
        lemma_skip_line(src, adv(src, c));
    }
}

proof fn lemma_trivia(src: Seq<char>, c: Cursor)
    requires
        cursor_ok(src, c),
    ensures
        cursor_ok(src, skip_trivia(src, c)),
        skip_trivia(src, c).pos >= c.pos,
    decreases src.len() - c.pos,
{
    lemma_skip_ws(src, c);
    lemma_ws_forward(src, c);
    let a = skip_ws(src, c);
    if at_comment(src, a) {
        lemma_skip_line(src, a);
        lemma_comment_forward(src, a);
        lemma_trivia(src, skip_line(src, a));
    }
}

/// A comment is skipped past at least its first character.
pub proof fn lemma_comment_forward(src: Seq<char>, a: Cursor)
    requires
        at_comment(src, a),
    ensures
        skip_line(src, a).pos > a.pos,
        skip_line(src, a).pos <= src.len(),
{
    lemma_line_forward(src, adv(src, a));
}

pub proof fn lemma_trivia_moves_forward(src: Seq<char>, c: Cursor)
    ensures
        skip_trivia(src, c).pos >= c.pos,
        c.pos <= src.len() ==> skip_trivia(src, c).pos <= src.len(),
    decreases src.len() - c.pos,
{
    lemma_ws_forward(src, c);
    let a = skip_ws(src, c);
    if at_comment(src, a) {
        lemma_comment_forward(src, a);
        lemma_trivia_moves_forward(src, skip_line(src, a));
    }
}

pub proof fn lemma_ws_forward(src: Seq<char>, c: Cursor)
    ensures
        skip_ws(src, c).pos >= c.pos,
        c.pos <= src.len() ==> skip_ws(src, c).pos <= src.len(),
    decreases src.len() - c.pos,
{
    if 0 <= c.pos < src.len() && spec_is_whitespace(src[c.pos]) {
        lemma_ws_forward(src, adv(src, c));
    }
}

pub proof fn lemma_line_forward(src: Seq<char>, c: Cursor)
    ensures
        skip_line(src, c).pos >= c.pos,
        c.pos <= src.len() ==> skip_line(src, c).pos <= src.len(),
    decreases src.len() - c.pos,
{
    if 0 <= c.pos < src.len() && src[c.pos] != '\n' {
        lemma_line_forward(src, adv(src, c));
    }
}

proof fn lemma_digits_forward(src: Seq<char>, c: Cursor)
    ensures
        scan_digits(src, c).pos >= c.pos,
        c.pos <= src.len() ==> scan_digits(src, c).pos <= src.len(),
        0 <= c.pos < src.len() && spec_is_digit(src[c.pos]) ==> scan_digits(src, c).pos > c.pos,
    decreases src.len() - c.pos,
{
    if 0 <= c.pos < src.len() && spec_is_digit(src[c.pos]) {
        lemma_digits_forward(src, adv(src, c));
    }
}

proof fn lemma_word_forward(src: Seq<char>, c: Cursor)
    ensures
        scan_word(src, c).pos >= c.pos,
        c.pos <= src.len() ==> scan_word(src, c).pos <= src.len(),
        0 <= c.pos < src.len() && (letter_or_digit(src[c.pos]) || src[c.pos] == '_') ==> scan_word(src, c).pos > c.pos,
    decreases src.len() - c.pos,
{
    if 0 <= c.pos < src.len() && (letter_or_digit(src[c.pos]) || src[c.pos] == '_') {
        lemma_word_forward(src, adv(src, c));
    }
}

proof fn lemma_string_forward(src: Seq<char>, c: Cursor, acc: Seq<char>)
    ensures
        scan_string(src, c, acc) matches Ok((_, e)) ==> e.pos > c.pos && e.pos <= src.len(),
    decreases src.len() - c.pos,
{
    if 0 <= c.pos < src.len() && src[c.pos] != '"' {
        if src[c.pos] == '\\' {
            let c1 = adv(src, c);
            if c1.pos < src.len() {
                lemma_string_forward(src, adv(src, c1), acc.push(unescape(src[c1.pos])));
            }
        } else {
            lemma_string_forward(src, adv(src, c), acc.push(src[c.pos]));
        }
    }
}

/// A token always consumes at least one character.
pub proof fn lemma_next_token_moves_forward(src: Seq<char>, c: Cursor)
    requires
        0 <= c.pos < src.len(),
    ensures
        spec_next_token(src, c) matches Ok((_, e)) ==> e.pos > c.pos && e.pos <= src.len(),
{
    lemma_digits_forward(src, c);
    lemma_word_forward(src, adv(src, c));
    lemma_string_forward(src, adv(src, c), Seq::empty());
}

/// A successful tokenisation ends with the end-of-file token, and only there.
pub proof fn lemma_tokenize_ends_with_eof(src: Seq<char>, c: Cursor)
    requires
        0 <= c.pos,
    ensures
        spec_tokenize(src, c) matches Ok(ts) ==> ts.len() > 0 && ts.last().kind == TokenKindView::Eof
            && forall|i: int| 0 <= i < ts.len() - 1 ==> (#[trigger] ts[i]).kind != TokenKindView::Eof,
    decreases src.len() - c.pos,
{
    let c1 = skip_trivia(src, c);
    lemma_trivia_moves_forward(src, c);
    if c1.pos < src.len() {
        lemma_next_token_moves_forward(src, c1);
        lemma_next_token_not_eof(src, c1);
        if let Ok((t, c2)) = spec_next_token(src, c1) {
            lemma_tokenize_ends_with_eof(src, c2);
            if let Ok(ts) = spec_tokenize(src, c2) {
                let all = seq![t] + ts;
                assert(all.last() == ts.last());
                assert forall|i: int| 0 <= i < all.len() - 1 implies (#[trigger] all[i]).kind != TokenKindView::Eof by {
                    if i > 0 {
                        assert(all[i] == ts[i - 1]);
                    }
                }
            }
        }
    }
}

/// `b` is a well-formed cursor no earlier in lines than `a`.
pub open spec fn later_ok(src: Seq<char>, a: Cursor, b: Cursor) -> bool {
    cursor_ok(src, b) && b.line >= a.line
}

proof fn lemma_ws_lines(src: Seq<char>, c: Cursor)
    requires
        cursor_ok(src, c),
    ensures
        later_ok(src, c, skip_ws(src, c)),
    decreases src.len() - c.pos,
{
    if 0 <= c.pos < src.len() && spec_is_whitespace(src[c.pos]) {
        lemma_adv(src, c);
        lemma_ws_lines(src, adv(src, c));
    }
}

proof fn lemma_line_lines(src: Seq<char>, c: Cursor)
    requires
        cursor_ok(src, c),
    ensures
        later_ok(src, c, skip_line(src, c)),
    decreases src.len() - c.pos,
{
    if 0 <= c.pos < src.len() && src[c.pos] != '\n' {
        lemma_adv(src, c);
        lemma_line_lines(src, adv(src, c));
    }
}

proof fn lemma_trivia_lines(src: Seq<char>, c: Cursor)
    requires
        cursor_ok(src, c),
    ensures
        later_ok(src, c, skip_trivia(src, c)),
    decreases src.len() - c.pos,
{
    lemma_ws_lines(src, c);
    lemma_ws_forward(src, c);
    let a = skip_ws(src, c);
    if at_comment(src, a) {
        lemma_line_lines(src, a);
        lemma_comment_forward(src, a);
        lemma_trivia_lines(src, skip_line(src, a));
    }
}

proof fn lemma_digits_lines(src: Seq<char>, c: Cursor)
    requires
        cursor_ok(src, c),
    ensures
        later_ok(src, c, scan_digits(src, c)),
    decreases src.len() - c.pos,
{
    if 0 <= c.pos < src.len() && spec_is_digit(src[c.pos]) {
        lemma_adv(src, c);
        lemma_digits_lines(src, adv(src, c));
    }
}

proof fn lemma_word_lines(src: Seq<char>, c: Cursor)
    requires
        cursor_ok(src, c),
    ensures
        later_ok(src, c, scan_word(src, c)),
    decreases src.len() - c.pos,
{
    if 0 <= c.pos < src.len() && (letter_or_digit(src[c.pos]) || src[c.pos] == '_') {
        lemma_adv(src, c);
        lemma_word_lines(src, adv(src, c));
    }
}

proof fn lemma_string_lines(src: Seq<char>, c: Cursor, acc: Seq<char>)
    requires
        cursor_ok(src, c),
    ensures
        scan_string(src, c, acc) matches Ok((_, e)) ==> later_ok(src, c, e),
    decreases src.len() - c.pos,
{
    if 0 <= c.pos < src.len() {
        lemma_adv(src, c);
        if src[c.pos] == '\\' {
            let c1 = adv(src, c);
            if c1.pos < src.len() {
                lemma_adv(src, c1);
                lemma_string_lines(src, adv(src, c1), acc.push(unescape(src[c1.pos])));
            }
        } else if src[c.pos] != '"' {
            lemma_string_lines(src, adv(src, c), acc.push(src[c.pos]));
        }
    }
}

proof fn lemma_next_token_lines(src: Seq<char>, c: Cursor)
    requires
        cursor_ok(src, c),
        c.pos < src.len(),
    ensures
        spec_next_token(src, c) matches Ok((t, e)) ==> later_ok(src, c, e) && c.line <= t.line <= e.line
            && t.column == c.column,
{
    lemma_adv(src, c);
    lemma_adv(src, adv(src, c));
    lemma_digits_lines(src, c);
    lemma_word_lines(src, adv(src, c));
    lemma_string_lines(src, adv(src, c), Seq::empty());
}

/// Law: tokenising from a well-formed cursor (such as line 1, column 1 at
/// the start) gives tokens whose lines and columns are at least 1, whose
/// lines are no earlier than the starting line, and whose lines never go
/// back along the list.
pub proof fn lemma_tokenize_positions(src: Seq<char>, c: Cursor)
    requires
        cursor_ok(src, c),
    ensures
        spec_tokenize(src, c) matches Ok(ts) ==> {
            &&& forall|i: int| 0 <= i < ts.len() ==> (#[trigger] ts[i]).line >= c.line && ts[i].line >= 1 && ts[i].column >= 1
            &&& forall|i: int, j: int| 0 <= i <= j < ts.len() ==> (#[trigger] ts[i]).line <= (#[trigger] ts[j]).line
        },
    decreases src.len() - c.pos,
{
    let c1 = skip_trivia(src, c);
    lemma_trivia_lines(src, c);
    lemma_trivia_moves_forward(src, c);
    if c1.pos < src.len() {
        lemma_next_token_moves_forward(src, c1);
        lemma_next_token_lines(src, c1);
        if let Ok((t, c2)) = spec_next_token(src, c1) {
            lemma_tokenize_positions(src, c2);
            if let Ok(ts) = spec_tokenize(src, c2) {
                let all = seq![t] + ts;
                assert forall|i: int| 0 <= i < all.len() implies (#[trigger] all[i]).line >= c.line && all[i].line >= 1
                    && all[i].column >= 1 by {
                    if i > 0 {
                        assert(all[i] == ts[i - 1]);
                    }
                }
                assert forall|i: int, j: int| 0 <= i <= j < all.len() implies (#[trigger] all[i]).line <= (#[trigger] all[j]).line by {
                    if i > 0 {
                        assert(all[i] == ts[i - 1] && all[j] == ts[j - 1]);
                    } else if j > 0 {
                        assert(all[j] == ts[j - 1]);
                    }
                }
            }
        }
    }
}

/// The token a single punctuation character stands for when it does not
/// start a two-character operator or a comment.
pub open spec fn one_char_kind(a: char) -> Option<TokenKindView> {
    if a == '+' {
        Some(TokenKindView::Plus)
    } else if a == '-' {
        Some(TokenKindView::Minus)
    } else if a == '*' {
        Some(TokenKindView::Star)
    } else if a == '/' {
        Some(TokenKindView::Slash)
    } else if a == '%' {
        Some(TokenKindView::Percent)
    } else if a == '=' {
        Some(TokenKindView::Assign)
    } else if a == '!' {
        Some(TokenKindView::Not)
    } else if a == '<' {
        Some(TokenKindView::Lt)
    } else if a == '>' {
        Some(TokenKindView::Gt)
    } else if a == '(' {
        Some(TokenKindView::LeftParen)
    } else if a == ')' {
        Some(TokenKindView::RightParen)
    } else if a == '{' {
        Some(TokenKindView::LeftBrace)
    } else if a == '}' {
        Some(TokenKindView::RightBrace)
    } else if a == '[' {
        Some(TokenKindView::LeftBracket)
    } else if a == ']' {
        Some(TokenKindView::RightBracket)
    } else if a == ',' {
        Some(TokenKindView::Comma)
    } else if a == ';' {
        Some(TokenKindView::Semicolon)
    } else if a == ':' {
        Some(TokenKindView::Colon)
    } else if a == '.' {
        Some(TokenKindView::Dot)
    } else {
        None
    }
}

/// Law: a punctuation character that does not start a two-character
/// operator is read as the one-character token it stands for (`+` as
/// `Plus`, `<` as `Lt`, `=` as `Assign`, `;` as `Semicolon`, ...), with
/// itself as the lexeme, at its position, consuming just that character.
pub proof fn lemma_one_char_tokens(src: Seq<char>, c: Cursor)
    requires
        0 <= c.pos < src.len(),
    ensures
        one_char_kind(src[c.pos]) is Some && two_char_kind(src[c.pos], char_at(src, c.pos + 1)) is None
            ==> spec_next_token(src, c) == Ok::<(TokenView, Cursor), LexErrorView>((
                token_at(one_char_kind(src[c.pos])->0, seq![src[c.pos]], c),
                Cursor { pos: c.pos + 1, line: c.line, column: c.column + 1 },
            )),
{
}

/// The token a two-character operator stands for, if `a` then `b` is one.
pub open spec fn two_char_kind(a: char, b: char) -> Option<TokenKindView> {
    if a == '=' && b == '=' {
        Some(TokenKindView::Eq)
    } else if a == '!' && b == '=' {
        Some(TokenKindView::Neq)
    } else if a == '<' && b == '=' {
        Some(TokenKindView::Lte)
    } else if a == '>' && b == '=' {
        Some(TokenKindView::Gte)
    } else if a == '&' && b == '&' {
        Some(TokenKindView::And)
    } else if a == '|' && b == '|' {
        Some(TokenKindView::Or)
    } else if a == '-' && b == '>' {
        Some(TokenKindView::Arrow)
    } else {
        None
    }
}

/// Law: a two-character operator (`==`, `!=`, `<=`, `>=`, `&&`, `||`,
/// `->`) is read as one token at its position, with both characters as its
/// lexeme, and both characters are consumed; it is never split in two. A
/// `&` or `|` not followed by the same character is a lexical error there.
pub proof fn lemma_two_char_operators(src: Seq<char>, c: Cursor)
    requires
        0 <= c.pos,
        c.pos + 1 < src.len(),
    ensures
        two_char_kind(src[c.pos], src[c.pos + 1]) matches Some(k) ==> spec_next_token(src, c) == Ok::<(TokenView, Cursor), LexErrorView>((
            token_at(k, src.subrange(c.pos, c.pos + 2), c),
            Cursor { pos: c.pos + 2, line: c.line, column: c.column + 2 },
        )),
        (src[c.pos] == '&' || src[c.pos] == '|') && src[c.pos + 1] != src[c.pos] ==> spec_next_token(src, c) is Err
            && spec_next_token(src, c)->Err_0.line == c.line && spec_next_token(src, c)->Err_0.column == c.column,
{
    let a = src[c.pos];
    let b = src[c.pos + 1];
    reveal_strlit("==");
    reveal_strlit("!=");
    reveal_strlit("<=");
    reveal_strlit(">=");
    reveal_strlit("&&");
    reveal_strlit("||");
    reveal_strlit("->");
    assert(src.subrange(c.pos, c.pos + 2) =~= seq![a, b]);
    assert("=="@ =~= seq!['=', '=']);
    assert("!="@ =~= seq!['!', '=']);
    assert("<="@ =~= seq!['<', '=']);
    assert(">="@ =~= seq!['>', '=']);
    assert("&&"@ =~= seq!['&', '&']);
    assert("||"@ =~= seq!['|', '|']);
    assert("->"@ =~= seq!['-', '>']);
    let c1 = adv(src, c);
    assert(a != '\n' && b != '\n' && two_char_kind(a, b) is Some ==> adv(src, c1) == Cursor { pos: c.pos + 2, line: c.line, column: c.column + 2 });
}

/// A token read from the input is never the end-of-file token.
proof fn lemma_next_token_not_eof(src: Seq<char>, c: Cursor)
    ensures
        spec_next_token(src, c) matches Ok((t, _)) ==> t.kind != TokenKindView::Eof,
{
}

/// The token kind of an identifier-shaped word.
fn keyword_of(word: &String) -> (k: TokenKind)
    ensures
        k@ == keyword_kind(word@),
{
    if *word == String::from_str("contract") {
        TokenKind::Contract
    } else if *word == String::from_str("fn") {
        TokenKind::Fn
    } else if *word == String::from_str("let") {
        TokenKind::Let
    } else if *word == String::from_str("if") {
        TokenKind::If
    } else if *word == String::from_str("else") {
        TokenKind::Else
    } else if *word == String::from_str("while") {
        TokenKind::While
    } else if *word == String::from_str("return") {
        TokenKind::Return
    } else if *word == String::from_str("state") {
        TokenKind::State
    } else if *word == String::from_str("emit") {
        TokenKind::Emit
    } else if *word == String::from_str("require") {
        TokenKind::Require
    } else if *word == String::from_str("self") {
        TokenKind::Self_
    } else if *word == String::from_str("true") {
        TokenKind::True
    } else if *word == String::from_str("false") {
        TokenKind::False
    } else if *word == String::from_str("u64") {
        TokenKind::U64
    } else if *word == String::from_str("bool") {
        TokenKind::Bool
    } else if *word == String::from_str("address") {
        TokenKind::Address
    } else if *word == String::from_str("string") {
        TokenKind::StringType
    } else if *word == String::from_str("map") {
        TokenKind::MapType
    } else {
        TokenKind::Identifier(word.clone())
    }
}


proof fn lemma_digits_value_monotone(d: Seq<char>, k: int)
    requires
        0 <= k <= d.len(),
        forall|i: int| 0 <= i < d.len() ==> spec_is_digit(#[trigger] d[i]),
    ensures
        0 <= digits_value(d.take(k)) <= digits_value(d),
    decreases d.len(),
{
    if d.len() > 0 {
        if k == d.len() {
            assert(d.take(k) =~= d);
            lemma_digits_value_monotone(d.drop_last(), k - 1);
            assert(d.drop_last().take(k - 1) =~= d.drop_last());
        } else {
            lemma_digits_value_monotone(d.drop_last(), k);
            assert(d.drop_last().take(k) =~= d.take(k));
            lemma_digits_value_monotone(d.drop_last(), d.len() - 1);
            assert(d.drop_last().take(d.len() - 1) =~= d.drop_last());
        }
    } else {
        assert(d.take(k) =~= d);
    }
}

/// The value of a string of decimal digits, or `None` when it exceeds
/// `u64::MAX`.
fn parse_decimal(d: &Vec<char>) -> (r: Option<u64>)
    requires
        forall|i: int| 0 <= i < d@.len() ==> spec_is_digit(#[trigger] d@[i]),
    ensures
        r matches Some(v) ==> digits_value(d@) <= u64::MAX && v == digits_value(d@),
        r is None ==> digits_value(d@) > u64::MAX,
{
    let mut value: u64 = 0;
    let mut i: usize = 0;
    while i < d.len()
        invariant
            i <= d@.len(),
            forall|j: int| 0 <= j < d@.len() ==> spec_is_digit(#[trigger] d@[j]),
            value == digits_value(d@.take(i as int)),
        decreases d@.len() - i,
    {
        let digit = (d[i] as u32 - '0' as u32) as u64;
        assert(d@.take(i + 1).drop_last() =~= d@.take(i as int));
        proof { lemma_digits_value_monotone(d@, i + 1); }
        match value.checked_mul(10) {
            Some(t) => match t.checked_add(digit) {
                Some(n) => {
                    value = n;
                },
                None => {
                    return None;
                },
            },
            None => {
                proof {
                    assert(digits_value(d@.take(i + 1)) >= value * 10) by (nonlinear_arith)
                        requires
                            digits_value(d@.take(i + 1)) == value * 10 + digit,
                            digit >= 0;
                }
                return None;
            },
        }
        i += 1;
    }
    assert(d@.take(d@.len() as int) =~= d@);
    Some(value)
}

/// ThunderScript lexer.
pub struct Lexer {
    source: Vec<char>,
    pos: usize,
    line: usize,
    column: usize,
}

impl Lexer {
    /// The source characters.
    pub closed spec fn src(&self) -> Seq<char> {
        self.source@
    }

    /// The current position.
    pub closed spec fn cursor(&self) -> Cursor {
        Cursor { pos: self.pos as int, line: self.line as int, column: self.column as int }
    }

    /// The cursor is inside the source and the counters cannot overflow.
    pub closed spec fn wf(&self) -> bool {
        &&& cursor_ok(self.source@, self.cursor())
        &&& self.source@.len() + 2 <= usize::MAX
    }

    /// Create a new lexer for the given source string.
    pub fn new(source: &str) -> (l: Self)
        requires
            source@.len() + 2 <= usize::MAX,
        ensures
            l.wf(),
            l.src() == source@,
            l.cursor() == (Cursor { pos: 0, line: 1, column: 1 }),
    {
        Self { source: chars_of(source), pos: 0, line: 1, column: 1 }
    }

    fn peek(&self) -> (c: char)
        ensures
            c == char_at(self.source@, self.pos as int),
    {
        if self.pos < self.source.len() { self.source[self.pos] } else { '\0' }
    }

    fn peek_next(&self) -> (c: char)
        requires
            self.wf(),
        ensures
            c == char_at(self.source@, self.pos + 1),
    {
        if self.pos + 1 < self.source.len() { self.source[self.pos + 1] } else { '\0' }
    }

    fn is_at_end(&self) -> (b: bool)
        ensures
            b == (self.pos >= self.source@.len()),
    {
        self.pos >= self.source.len()
    }

    fn advance(&mut self)
        requires
            old(self).wf(),
        ensures
            final(self).wf(),
            final(self).source == old(self).source,
            final(self).cursor() == adv(old(self).source@, old(self).cursor()),
    {
        if !self.is_at_end() {
            if self.peek() == '\n' {
                self.line += 1;
                self.column = 1;
            } else {
                self.column += 1;
            }
            self.pos += 1;
        }
    }

    fn skip_whitespace(&mut self)
        requires
            old(self).wf(),
        ensures
            final(self).wf(),
            final(self).source == old(self).source,
            final(self).cursor() == skip_ws(old(self).source@, old(self).cursor()),
    {
        while !self.is_at_end() && is_whitespace(self.peek())
            invariant
                self.wf(),
                self.source == old(self).source,
                skip_ws(self.source@, self.cursor()) == skip_ws(old(self).source@, old(self).cursor()),
            decreases self.source@.len() - self.pos,
        {
            self.advance();
        }
    }

    fn skip_comments(&mut self)
        requires
            old(self).wf(),
        ensures
            final(self).wf(),
            final(self).source == old(self).source,
            final(self).cursor() == skip_comment(old(self).source@, old(self).cursor()),
    {
        if !self.is_at_end() && self.peek() == '/' && self.peek_next() == '/' {
            while !self.is_at_end() && self.peek() != '\n'
                invariant
                    self.wf(),
                    self.source == old(self).source,
                    skip_line(self.source@, self.cursor()) == skip_line(old(self).source@, old(self).cursor()),
                decreases self.source@.len() - self.pos,
            {
                self.advance();
            }
        }
    }

    /// Skip whitespace and comments until neither is left.
    fn skip_trivia(&mut self)
        requires
            old(self).wf(),
        ensures
            final(self).wf(),
            final(self).source == old(self).source,
            final(self).cursor() == skip_trivia(old(self).source@, old(self).cursor()),
    {
        let ghost target = skip_trivia(self.source@, self.cursor());
        loop
            invariant_except_break
                self.wf(),
                self.source == old(self).source,
                skip_trivia(self.source@, self.cursor()) == target,
            ensures
                self.wf(),
                self.source == old(self).source,
                self.cursor() == target,
            decreases self.source@.len() - self.pos,
        {
            let ghost c = self.cursor();
            self.skip_whitespace();
            if !self.is_at_end() && self.peek() == '/' && self.peek_next() == '/' {
                let ghost a = self.cursor();
                proof {
                    assert(at_comment(self.source@, a));
                    lemma_ws_forward(self.source@, c);
                    lemma_comment_forward(self.source@, a);
                }
                self.skip_comments();
            } else {
                break;
            }
        }
    }

    fn make_token(&self, kind: TokenKind, lexeme: &str) -> (t: Token)
        ensures
            t@ == token_at(kind@, lexeme@, self.cursor()),
    {
        Token { kind, lexeme: String::from_str(lexeme), line: self.line, column: self.column }
    }

    fn single_char_token(&mut self, kind: TokenKind) -> (t: Token)
        requires
            old(self).wf(),
            old(self).pos < old(self).source@.len(),
        ensures
            final(self).wf(),
            final(self).source == old(self).source,
            single(old(self).source@, old(self).cursor(), kind@) == Ok::<(TokenView, Cursor), LexErrorView>((t@, final(self).cursor())),
    {
        let c = self.peek();
        let lexeme = string_of(&[c]);
        assert([c]@ =~= seq![c]);
        let tok = Token { kind, lexeme, line: self.line, column: self.column };
        self.advance();
        tok
    }

    fn double_char_token(&mut self, kind: TokenKind, lexeme: &str) -> (t: Token)
        requires
            old(self).wf(),
            old(self).pos < old(self).source@.len(),
        ensures
            final(self).wf(),
            final(self).source == old(self).source,
            t@ == token_at(kind@, lexeme@, old(self).cursor()),
            final(self).cursor() == adv(old(self).source@, adv(old(self).source@, old(self).cursor())),
    {
        let tok = self.make_token(kind, lexeme);
        self.advance();
        self.advance();
        tok
    }

    fn error(&self, msg: &str) -> (e: LexerError)
        ensures
            e@ == lex_error(msg@, self.cursor()),
    {
        LexerError { message: String::from_str(msg), line: self.line, column: self.column }
    }

    fn read_number(&mut self) -> (r: Result<Token, LexerError>)
        requires
            old(self).wf(),
        ensures
            final(self).wf(),
            final(self).source == old(self).source,
            final(self).cursor() == scan_digits(old(self).source@, old(self).cursor()),
            ({
                let c = old(self).cursor();
                let src = old(self).source@;
                let e = scan_digits(src, c);
                let digits = src.subrange(c.pos, e.pos);
                match r {
                    Ok(t) => digits_value(digits) <= u64::MAX && t@ == (TokenView {
                        kind: TokenKindView::IntLiteral(digits_value(digits) as u64),
                        lexeme: digits,
                        line: e.line,
                        column: c.column,
                    }),
                    Err(err) => digits_value(digits) > u64::MAX && err@ == lex_error("invalid number literal: "@ + digits, e),
                }
            }),
    {
        let ghost c = self.cursor();
        let start_col = self.column;
        let mut digits: Vec<char> = Vec::new();
        proof { lemma_digits_forward(self.source@, c); }
        while !self.is_at_end() && is_digit(self.peek())
            invariant
                self.wf(),
                self.source == old(self).source,
                c == old(self).cursor(),
                c.pos <= self.pos,
                scan_digits(self.source@, self.cursor()) == scan_digits(self.source@, c),
                digits@ == self.source@.subrange(c.pos, self.pos as int),
                forall|i: int| 0 <= i < digits@.len() ==> spec_is_digit(#[trigger] digits@[i]),
            decreases self.source@.len() - self.pos,
        {
            let ch = self.peek();
            digits.push(ch);
            self.advance();
            assert(digits@ =~= self.source@.subrange(c.pos, self.pos as int));
        }
        match parse_decimal(&digits) {
            Some(value) => Ok(Token {
                kind: TokenKind::IntLiteral(value),
                lexeme: string_of(digits.as_slice()),
                line: self.line,
                column: start_col,
            }),
            None => {
                let mut msg = String::from_str("invalid number literal: ");
                let text = string_of(digits.as_slice());
                msg.append(text.as_str());
                Err(self.error(msg.as_str()))
            },
        }
    }

    fn read_identifier(&mut self) -> (t: Token)
        requires
            old(self).wf(),
            old(self).pos < old(self).source@.len(),
        ensures
            final(self).wf(),
            final(self).source == old(self).source,
            ({
                let c = old(self).cursor();
                let src = old(self).source@;
                let e = scan_word(src, adv(src, c));
                &&& final(self).cursor() == e
                &&& t@ == (TokenView { kind: keyword_kind(src.subrange(c.pos, e.pos)), lexeme: src.subrange(c.pos, e.pos), line: e.line, column: c.column })
            }),
    {
        let ghost c = self.cursor();
        let start_col = self.column;
        let mut word: Vec<char> = Vec::new();
        let first = self.peek();
        word.push(first);
        self.advance();
        assert(word@ =~= self.source@.subrange(c.pos, self.pos as int));
        while !self.is_at_end() && (is_letter_or_digit(self.peek()) || self.peek() == '_')
            invariant
                self.wf(),
                self.source == old(self).source,
                c == old(self).cursor(),
                c.pos < self.pos,
                scan_word(self.source@, self.cursor()) == scan_word(self.source@, adv(self.source@, c)),
                word@ == self.source@.subrange(c.pos, self.pos as int),
            decreases self.source@.len() - self.pos,
        {
            let ch = self.peek();
            word.push(ch);
            self.advance();
            assert(word@ =~= self.source@.subrange(c.pos, self.pos as int));
        }
        let text = string_of(word.as_slice());
        let kind = keyword_of(&text);
        Token { kind, lexeme: text, line: self.line, column: start_col }
    }

    fn read_string(&mut self) -> (r: Result<Token, LexerError>)
        requires
            old(self).wf(),
            old(self).pos < old(self).source@.len(),
        ensures
            final(self).wf(),
            final(self).source == old(self).source,
            ({
                let c = old(self).cursor();
                let src = old(self).source@;
                match scan_string(src, adv(src, c), Seq::empty()) {
                    Ok((v, e)) => r matches Ok(t) && final(self).cursor() == e && t@ == (TokenView {
                        kind: TokenKindView::StringLiteral(v),
                        lexeme: "\""@ + v + "\""@,
                        line: e.line,
                        column: c.column,
                    }),
                    Err((m, e)) => r matches Err(err) && err@ == lex_error(m, e),
                }
            }),
    {
        let ghost c = self.cursor();
        let ghost src = self.source@;
        let start_col = self.column;
        self.advance();
        let mut value: Vec<char> = Vec::new();
        while !self.is_at_end() && self.peek() != '"'
            invariant
                self.wf(),
                self.source == old(self).source,
                c == old(self).cursor(),
                src == self.source@,
                scan_string(src, self.cursor(), value@) == scan_string(src, adv(src, c), Seq::empty()),
            decreases self.source@.len() - self.pos,
        {
            if self.peek() == '\\' {
                self.advance();
                if self.is_at_end() {
                    return Err(self.error("unterminated string escape"));
                }
                let e = self.peek();
                let ch = if e == 'n' {
                    '\n'
                } else if e == 't' {
                    '\t'
                } else {
                    e
                };
                value.push(ch);
            } else {
                let ch = self.peek();
                value.push(ch);
            }
            self.advance();
        }
        if self.is_at_end() {
            return Err(self.error("unterminated string literal"));
        }
        self.advance();
        let body = string_of(value.as_slice());
        let mut lexeme = String::from_str("\"");
        lexeme.append(body.as_str());
        lexeme.append("\"");
        Ok(Token { kind: TokenKind::StringLiteral(body), lexeme, line: self.line, column: start_col })
    }

    /// Read the next token.
    fn next_token(&mut self) -> (r: Result<Token, LexerError>)
        requires
            old(self).wf(),
            old(self).pos < old(self).source@.len(),
        ensures
            final(self).wf(),
            final(self).source == old(self).source,
            match r {
                Ok(t) => spec_next_token(old(self).source@, old(self).cursor()) == Ok::<(TokenView, Cursor), LexErrorView>((t@, final(self).cursor())),
                Err(e) => spec_next_token(old(self).source@, old(self).cursor()) == Err::<(TokenView, Cursor), LexErrorView>(e@),
            },
    {
        let ch = self.peek();
        if is_digit(ch) {
            self.read_number()
        } else if is_letter(ch) || ch == '_' {
            Ok(self.read_identifier())
        } else if ch == '"' {
            self.read_string()
        } else if ch == '+' {
            Ok(self.single_char_token(TokenKind::Plus))
        } else if ch == '*' {
            Ok(self.single_char_token(TokenKind::Star))
        } else if ch == '%' {
            Ok(self.single_char_token(TokenKind::Percent))
        } else if ch == '(' {
            Ok(self.single_char_token(TokenKind::LeftParen))
        } else if ch == ')' {
            Ok(self.single_char_token(TokenKind::RightParen))
        } else if ch == '{' {
            Ok(self.single_char_token(TokenKind::LeftBrace))
        } else if ch == '}' {
            Ok(self.single_char_token(TokenKind::RightBrace))
        } else if ch == '[' {
            Ok(self.single_char_token(TokenKind::LeftBracket))
        } else if ch == ']' {
            Ok(self.single_char_token(TokenKind::RightBracket))
        } else if ch == ',' {
            Ok(self.single_char_token(TokenKind::Comma))
        } else if ch == ';' {
            Ok(self.single_char_token(TokenKind::Semicolon))
        } else if ch == ':' {
            Ok(self.single_char_token(TokenKind::Colon))
        } else if ch == '.' {
            Ok(self.single_char_token(TokenKind::Dot))
        } else if ch == '-' {
            if self.peek_next() == '>' {
                Ok(self.double_char_token(TokenKind::Arrow, "->"))
            } else {
                Ok(self.single_char_token(TokenKind::Minus))
            }
        } else if ch == '=' {
            if self.peek_next() == '=' {
                Ok(self.double_char_token(TokenKind::Eq, "=="))
            } else {
                Ok(self.single_char_token(TokenKind::Assign))
            }
        } else if ch == '!' {
            if self.peek_next() == '=' {
                Ok(self.double_char_token(TokenKind::Neq, "!="))
            } else {
                Ok(self.single_char_token(TokenKind::Not))
            }
        } else if ch == '<' {
            if self.peek_next() == '=' {
                Ok(self.double_char_token(TokenKind::Lte, "<="))
            } else {
                Ok(self.single_char_token(TokenKind::Lt))
            }
        } else if ch == '>' {
            if self.peek_next() == '=' {
                Ok(self.double_char_token(TokenKind::Gte, ">="))
            } else {
                Ok(self.single_char_token(TokenKind::Gt))
            }
        } else if ch == '&' {
            if self.peek_next() == '&' {
                Ok(self.double_char_token(TokenKind::And, "&&"))
            } else {
                Err(self.error("unexpected character '&'"))
            }
        } else if ch == '|' {
            if self.peek_next() == '|' {
                Ok(self.double_char_token(TokenKind::Or, "||"))
            } else {
                Err(self.error("unexpected character '|'"))
            }
        } else if ch == '/' {
            Ok(self.single_char_token(TokenKind::Slash))
        } else {
            let mut msg = String::from_str("unexpected character '");
            let text = string_of(&[ch]);
            assert([ch]@ =~= seq![ch]);
            msg.append(text.as_str());
            msg.append("'");
            Err(self.error(msg.as_str()))
        }
    }

    /// Tokenise the entire source into a vector of tokens.
    pub fn tokenize(&mut self) -> (r: Result<Vec<Token>, LexerError>)
        requires
            old(self).wf(),
        ensures
            match r {
                Ok(ts) => spec_tokenize(old(self).src(), old(self).cursor()) == Ok::<Seq<TokenView>, LexErrorView>(tokens_view(ts@)),
                Err(e) => spec_tokenize(old(self).src(), old(self).cursor()) == Err::<Seq<TokenView>, LexErrorView>(e@),
            },
    {
        let ghost src = self.source@;
        let ghost start = self.cursor();
        let mut tokens: Vec<Token> = Vec::new();
        loop
            invariant
                self.wf(),
                src == self.source@,
                src == old(self).source@,
                start == old(self).cursor(),
                spec_tokenize(src, start) == (match spec_tokenize(src, self.cursor()) {
                    Ok(rest) => Ok(tokens_view(tokens@) + rest),
                    Err(e) => Err::<Seq<TokenView>, LexErrorView>(e),
                }),
            decreases self.source@.len() - self.pos,
        {
            let ghost c = self.cursor();
            self.skip_trivia();
            proof { lemma_trivia(src, c); }
            if self.is_at_end() {
                let eof = self.make_token(TokenKind::Eof, "");
                let ghost before = tokens_view(tokens@);
                tokens.push(eof);
                assert(tokens_view(tokens@) =~= before.push(eof@));
                assert(""@ =~= Seq::<char>::empty()) by {
                    reveal_strlit("");
                }
                assert(tokens_view(tokens@) =~= before + seq![eof@]);
                return Ok(tokens);
            }
            let ghost c1 = self.cursor();
            match self.next_token() {
                Ok(token) => {
                    proof { lemma_next_token_moves_forward(src, c1); }
                    let ghost before = tokens_view(tokens@);
                    tokens.push(token);
                    assert(tokens_view(tokens@) =~= before.push(token@));
                    proof {
                        match spec_tokenize(src, self.cursor()) {
                            Ok(rest) => {
                                assert(before + (seq![token@] + rest) =~= tokens_view(tokens@) + rest);
                            },
                            Err(e) => {},
                        }
                    }
                },
                Err(e) => {
                    return Err(e);
                },
            }
        }
    }
}

} // verus!
