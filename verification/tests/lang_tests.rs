use thunder::ast::{AssignTarget, Program, Statement, Type};
use thunder::compiler::{compile_source, CompileError, Compiler};
use thunder::lexer::{Lexer, TokenKind};
use thunder::opcode::OpCode;
use thunder::parser::{ParseError, Parser};
use thunder::keymap::KeyedMap;
use thunder::vm::{ExecutionContext, ThunderVm};

// ── lexer ──────────────────────────────────────────────────────────────────

#[test]
fn test_basic_tokens() {
    let src = "let x = 42;";
    let mut lexer = Lexer::new(src);
    let tokens = lexer.tokenize().unwrap();
    assert_eq!(tokens[0].kind, TokenKind::Let);
    assert_eq!(tokens[1].kind, TokenKind::Identifier("x".to_string()));
    assert_eq!(tokens[2].kind, TokenKind::Assign);
    assert_eq!(tokens[3].kind, TokenKind::IntLiteral(42));
    assert_eq!(tokens[4].kind, TokenKind::Semicolon);
    assert_eq!(tokens[5].kind, TokenKind::Eof);
}

#[test]
fn test_contract_declaration() {
    let src = "contract Token { }";
    let mut lexer = Lexer::new(src);
    let tokens = lexer.tokenize().unwrap();
    assert_eq!(tokens[0].kind, TokenKind::Contract);
    assert_eq!(tokens[1].kind, TokenKind::Identifier("Token".to_string()));
    assert_eq!(tokens[2].kind, TokenKind::LeftBrace);
    assert_eq!(tokens[3].kind, TokenKind::RightBrace);
}

#[test]
fn test_function_signature() {
    let src = "fn transfer(to: address, amount: u64) -> bool {";
    let mut lexer = Lexer::new(src);
    let tokens = lexer.tokenize().unwrap();
    assert_eq!(tokens[0].kind, TokenKind::Fn);
    assert_eq!(tokens[1].kind, TokenKind::Identifier("transfer".to_string()));
    assert_eq!(tokens[2].kind, TokenKind::LeftParen);
    assert_eq!(tokens[3].kind, TokenKind::Identifier("to".to_string()));
    assert_eq!(tokens[4].kind, TokenKind::Colon);
    assert_eq!(tokens[5].kind, TokenKind::Address);
}

#[test]
fn test_operators() {
    let src = "a + b == c && d >= e";
    let mut lexer = Lexer::new(src);
    let tokens = lexer.tokenize().unwrap();
    assert_eq!(tokens[1].kind, TokenKind::Plus);
    assert_eq!(tokens[3].kind, TokenKind::Eq);
    assert_eq!(tokens[5].kind, TokenKind::And);
    assert_eq!(tokens[7].kind, TokenKind::Gte);
}

#[test]
fn test_string_literal() {
    let src = r#""hello world""#;
    let mut lexer = Lexer::new(src);
    let tokens = lexer.tokenize().unwrap();
    assert_eq!(tokens[0].kind, TokenKind::StringLiteral("hello world".to_string()));
}

#[test]
fn test_comments_skipped() {
    let src = "let x = 1; // this is a comment\nlet y = 2;";
    let mut lexer = Lexer::new(src);
    let tokens = lexer.tokenize().unwrap();
    let idents: Vec<&TokenKind> = tokens.iter().map(|t| &t.kind).collect();
    assert!(idents.contains(&&TokenKind::Identifier("y".to_string())));
}

#[test]
fn test_self_keyword() {
    let src = "self.balances";
    let mut lexer = Lexer::new(src);
    let tokens = lexer.tokenize().unwrap();
    assert_eq!(tokens[0].kind, TokenKind::Self_);
    assert_eq!(tokens[1].kind, TokenKind::Dot);
}

#[test]
fn test_full_contract() {
    let src = r#"
contract Token {
    state owner: address;
    state total: u64;

    fn init() {
        self.owner = caller();
        self.total = 1000000;
    }

    fn transfer(to: address, amount: u64) {
        let balance = self.total;
        require(balance >= amount, "Insufficient");
        self.total = balance - amount;
    }
}
        "#;
    let mut lexer = Lexer::new(src);
    let tokens = lexer.tokenize().unwrap();
    assert_eq!(tokens.last().unwrap().kind, TokenKind::Eof);
    assert!(tokens.len() > 30);
}

#[test]
fn lexer_positions_and_lexemes() {
    let mut lexer = Lexer::new("let\n  abc");
    let tokens = lexer.tokenize().unwrap();
    assert_eq!((tokens[0].line, tokens[0].column), (1, 1));
    assert_eq!(tokens[1].lexeme, "abc");
    assert_eq!((tokens[1].line, tokens[1].column), (2, 3));
}

#[test]
fn lexer_errors() {
    let e = Lexer::new("let # = 1;").tokenize().unwrap_err();
    assert_eq!((e.line, e.column), (1, 5));
    let e = Lexer::new("\"open").tokenize().unwrap_err();
    assert!(e.to_string().starts_with("Lexer error at 1:"));
}

#[test]
fn lexer_empty_source_is_just_eof() {
    let tokens = Lexer::new("").tokenize().unwrap();
    assert_eq!(tokens.len(), 1);
    assert_eq!(tokens[0].kind, TokenKind::Eof);
}

// ── parser ─────────────────────────────────────────────────────────────────

fn parse_source(src: &str) -> Result<Program, ParseError> {
    let mut lexer = Lexer::new(src);
    let tokens = lexer.tokenize().expect("lexer failed");
    let mut parser = Parser::new(tokens);
    parser.parse()
}

#[test]
fn test_empty_contract() {
    let program = parse_source("contract Empty { }").unwrap();
    assert_eq!(program.contract.name, "Empty");
    assert!(program.contract.state_vars.is_empty());
    assert!(program.contract.functions.is_empty());
}

#[test]
fn test_state_vars() {
    let program = parse_source(
        "contract Token {
                state owner: address;
                state total: u64;
            }",
    )
    .unwrap();
    assert_eq!(program.contract.state_vars.len(), 2);
    assert_eq!(program.contract.state_vars[0].name, "owner");
    assert_eq!(program.contract.state_vars[0].ty, Type::Address);
    assert_eq!(program.contract.state_vars[1].name, "total");
    assert_eq!(program.contract.state_vars[1].ty, Type::U64);
}

#[test]
fn test_simple_function() {
    let program = parse_source(
        "contract C {
                fn add(a: u64, b: u64) -> u64 {
                    return a + b;
                }
            }",
    )
    .unwrap();
    assert_eq!(program.contract.functions.len(), 1);
    let f = &program.contract.functions[0];
    assert_eq!(f.name, "add");
    assert_eq!(f.params.len(), 2);
    assert_eq!(f.return_type, Some(Type::U64));
}

#[test]
fn test_if_else() {
    let program = parse_source(
        "contract C {
                fn check(x: u64) {
                    if (x > 10) {
                        return;
                    } else {
                        return;
                    }
                }
            }",
    )
    .unwrap();
    let body = &program.contract.functions[0].body;
    assert!(matches!(body[0], Statement::If { .. }));
}

#[test]
fn test_while_loop() {
    let program = parse_source(
        "contract C {
                fn loop_fn() {
                    let i = 0;
                    while (i < 10) {
                        i = i + 1;
                    }
                }
            }",
    )
    .unwrap();
    let body = &program.contract.functions[0].body;
    assert!(matches!(body[0], Statement::Let { .. }));
    assert!(matches!(body[1], Statement::While { .. }));
}

#[test]
fn test_require_statement() {
    let program = parse_source(
        r#"contract C {
                fn safe(x: u64) {
                    require(x > 0, "must be positive");
                }
            }"#,
    )
    .unwrap();
    let body = &program.contract.functions[0].body;
    assert!(matches!(body[0], Statement::Require { .. }));
}

#[test]
fn test_self_access() {
    let program = parse_source(
        "contract C {
                state val: u64;
                fn set() {
                    self.val = 42;
                }
            }",
    )
    .unwrap();
    let body = &program.contract.functions[0].body;
    assert!(matches!(body[0], Statement::Assign { target: AssignTarget::StateField(_), .. }));
}

#[test]
fn test_map_type_and_access() {
    let program = parse_source(
        "contract C {
                state balances: map<address, u64>;
                fn get(addr: address) -> u64 {
                    return self.balances[addr];
                }
            }",
    )
    .unwrap();
    let sv = &program.contract.state_vars[0];
    assert!(matches!(sv.ty, Type::Mapping(_, _)));
}

#[test]
fn test_emit_statement() {
    let program = parse_source(
        "contract C {
                fn fire() {
                    emit Transfer(1, 2, 100);
                }
            }",
    )
    .unwrap();
    let body = &program.contract.functions[0].body;
    assert!(matches!(body[0], Statement::Emit { .. }));
}

#[test]
fn test_function_call_expression() {
    let program = parse_source(
        "contract C {
                fn test() {
                    let x = caller();
                }
            }",
    )
    .unwrap();
    let body = &program.contract.functions[0].body;
    assert!(matches!(body[0], Statement::Let { .. }));
}

#[test]
fn test_full_token_contract() {
    let src = r#"
contract Token {
    state owner: address;
    state balances: map<address, u64>;

    fn init() {
        self.owner = caller();
        self.balances[caller()] = 1000000;
    }

    fn transfer(to: address, amount: u64) {
        let sender_bal = self.balances[caller()];
        require(sender_bal >= amount, "Insufficient balance");
        self.balances[caller()] = sender_bal - amount;
        self.balances[to] = self.balances[to] + amount;
        emit Transfer(caller(), to, amount);
    }

    fn balance_of(addr: address) -> u64 {
        return self.balances[addr];
    }
}
        "#;
    let program = parse_source(src).unwrap();
    assert_eq!(program.contract.name, "Token");
    assert_eq!(program.contract.state_vars.len(), 2);
    assert_eq!(program.contract.functions.len(), 3);
}

#[test]
fn parse_error_reports_position() {
    let err = parse_source("contract { }").unwrap_err();
    assert_eq!(err.line, 1);
    assert!(err.to_string().contains("1:"));
}

// ── compiler ───────────────────────────────────────────────────────────────

#[test]
fn test_compile_empty_contract() {
    let src = "contract Empty { }";
    let compiled = compile_source(src).unwrap();
    assert_eq!(compiled.name, "Empty");
    assert!(!compiled.instructions.is_empty());
}

#[test]
fn test_compile_simple_function() {
    let src = r#"
contract Math {
    fn add(a: u64, b: u64) -> u64 {
        return a + b;
    }
}
        "#;
    let compiled = compile_source(src).unwrap();
    assert!(compiled.function_table.contains_key("add"));
    assert!(compiled.instructions.len() > 3);
}

#[test]
fn test_compile_state_access() {
    let src = r#"
contract Counter {
    state count: u64;

    fn increment() {
        self.count = self.count + 1;
    }
}
        "#;
    let compiled = compile_source(src).unwrap();
    assert!(compiled.state_slots.contains_key("count"));
    let has_sstore = compiled.instructions.iter().any(|i| i.opcode == OpCode::SStore);
    assert!(has_sstore, "should contain SStore for self.count = ...");
}

#[test]
fn test_compile_if_else() {
    let src = r#"
contract C {
    fn check(x: u64) -> u64 {
        if (x > 10) {
            return 1;
        } else {
            return 0;
        }
    }
}
        "#;
    let compiled = compile_source(src).unwrap();
    let has_jump = compiled.instructions.iter().any(|i| matches!(i.opcode, OpCode::Jump | OpCode::JumpIf));
    assert!(has_jump, "should contain jump instructions for if/else");
}

#[test]
fn test_compile_while_loop() {
    let src = r#"
contract C {
    fn count_to(n: u64) -> u64 {
        let i = 0;
        while (i < n) {
            i = i + 1;
        }
        return i;
    }
}
        "#;
    let compiled = compile_source(src).unwrap();
    let jumps: Vec<_> =
        compiled.instructions.iter().filter(|i| matches!(i.opcode, OpCode::Jump | OpCode::JumpIf)).collect();
    assert!(jumps.len() >= 2, "while loop needs at least 2 jumps");
}

#[test]
fn test_compile_require() {
    let src = r#"
contract C {
    fn safe(x: u64) {
        require(x > 0, "must be positive");
    }
}
        "#;
    let compiled = compile_source(src).unwrap();
    let has_require = compiled.instructions.iter().any(|i| i.opcode == OpCode::Require);
    assert!(has_require);
}

#[test]
fn test_compile_emit() {
    let src = r#"
contract C {
    fn fire() {
        emit Transfer(1, 2, 100);
    }
}
        "#;
    let compiled = compile_source(src).unwrap();
    let has_log = compiled.instructions.iter().any(|i| i.opcode == OpCode::Log);
    assert!(has_log);
}

#[test]
fn test_compile_builtin_caller() {
    let src = r#"
contract C {
    fn who() -> u64 {
        return caller();
    }
}
        "#;
    let compiled = compile_source(src).unwrap();
    let has_caller = compiled.instructions.iter().any(|i| i.opcode == OpCode::Caller);
    assert!(has_caller);
}

#[test]
fn compile_undefined_variable_error() {
    let err = compile_source("contract C { fn f() { return y; } }").unwrap_err();
    assert_eq!(err, "undefined variable: y");
}

#[test]
fn compile_undefined_state_error() {
    let err = compile_source("contract C { fn f() { self.nope = 1; } }").unwrap_err();
    assert_eq!(err, "undefined state variable: nope");
}

#[test]
fn compile_error_texts() {
    assert_eq!(CompileError::General("x".to_string()).to_string(), "compilation error: x");
}

#[test]
fn compiler_new_and_default_agree() {
    let a = Compiler::new();
    let b = Compiler::default();
    drop(a);
    drop(b);
}

#[test]
fn function_entry_points_and_slots() {
    let compiled = compile_source("contract C { state a: u64; state b: u64; fn f() { } fn g() { } }").unwrap();
    assert_eq!(compiled.state_slots.get("a"), Some(0));
    assert_eq!(compiled.state_slots.get("b"), Some(1));
    let f = compiled.function_table.get("f").unwrap();
    let g = compiled.function_table.get("g").unwrap();
    assert!(f < g);
}

#[test]
fn entry_program_jumps_past_itself_to_the_function() {
    let src = r#"
contract Math {
    fn one() -> u64 { return 1; }
    fn two() -> u64 { return 2; }
}
        "#;
    let compiled = compile_source(src).unwrap();
    let entry = compiled.function_table.get("two").unwrap();
    let p = compiled.entry_program("two").unwrap();
    assert_eq!(p.len(), compiled.instructions.len() + 1);
    assert_eq!(p[0].opcode, OpCode::Jump);
    assert_eq!(p[0].operand, entry as u64 + 1);
    for (a, b) in p[1..].iter().zip(compiled.instructions.iter()) {
        assert_eq!((a.opcode, a.operand, &a.data), (b.opcode, b.operand, &b.data));
    }
    assert!(compiled.entry_program("three").is_none());
}

#[test]
fn token_kind_display_text() {
    assert_eq!(TokenKind::Contract.to_string(), "contract");
    assert_eq!(TokenKind::Fn.to_string(), "fn");
    assert_eq!(TokenKind::Let.to_string(), "let");
    assert_eq!(TokenKind::Identifier("total".to_string()).to_string(), "total");
    assert_eq!(TokenKind::IntLiteral(42).to_string(), "42");
    assert_eq!(TokenKind::StringLiteral("hi".to_string()).to_string(), "\"hi\"");
    assert_eq!(TokenKind::Eof.to_string(), "EOF");
    assert_eq!(TokenKind::Plus.to_string(), "Plus");
    assert_eq!(TokenKind::MapType.to_string(), "Map");
}

#[test]
fn parse_errors_name_the_token_kinds() {
    let err = parse_source("contract C ;").unwrap_err();
    assert_eq!(err.message, "expected LeftBrace, got Semicolon");
    let err = parse_source("contract C \"a b\"").unwrap_err();
    assert_eq!(err.message, "expected LeftBrace, got StringLiteral(\"a b\")");
    let err = parse_source("contract C 42").unwrap_err();
    assert_eq!(err.message, "expected LeftBrace, got IntLiteral(42)");
    let err = parse_source("contract C map").unwrap_err();
    assert_eq!(err.message, "expected LeftBrace, got Map");
}

#[test]
fn consecutive_comments_are_all_skipped() {
    let mut lexer = Lexer::new("// a\n// b\n  // c\nx // d\n// e");
    let tokens = lexer.tokenize().unwrap();
    let kinds: Vec<TokenKind> = tokens.iter().map(|t| t.kind.clone()).collect();
    assert_eq!(kinds, vec![TokenKind::Identifier("x".to_string()), TokenKind::Eof]);
    assert_eq!((tokens[0].line, tokens[0].column), (4, 1));
}

/// Run a contract whose only function starts at instruction 0.
fn run_only_function(body: &str) -> Option<u64> {
    let compiled = compile_source(&format!("contract C {{ fn f() -> u64 {{ {} }} }}", body)).unwrap();
    assert_eq!(compiled.function_table.get("f"), Some(0));
    let ctx = ExecutionContext { caller: [1u8; 20], contract_address: [2u8; 20], value: 0, timestamp: 1000, block_height: 1 };
    let mut vm = ThunderVm::new(compiled.instructions, ctx, 1_000_000, KeyedMap::new());
    vm.execute().unwrap().return_value
}

#[test]
fn if_statement_runs_the_branch_its_condition_selects() {
    assert_eq!(run_only_function("if (2 > 1) { return 7; } return 9;"), Some(7));
    assert_eq!(run_only_function("if (1 > 2) { return 7; } return 9;"), Some(9));
    assert_eq!(run_only_function("if (3 == 3) { return 1; } else { return 2; }"), Some(1));
    assert_eq!(run_only_function("if (3 == 4) { return 1; } else { return 2; }"), Some(2));
    // The condition's value is consumed: nothing is left under the result.
    assert_eq!(run_only_function("if (1 > 0) { } return 5;"), Some(5));
    assert_eq!(run_only_function("let x = 4; if (x > 3) { x = x + 1; } return x;"), Some(5));
}

#[test]
fn every_function_entry_is_an_instruction() {
    let src = "contract C { fn a() -> u64 { return 1; } fn b() { } }";
    let compiled = compile_source(src).unwrap();
    let n = compiled.instructions.len();
    assert!(compiled.function_table.get("a").unwrap() < n);
    let b = compiled.function_table.get("b").unwrap();
    assert!(b < n);
    assert_eq!(compiled.instructions[b].opcode, OpCode::Return);
}

#[test]
fn compiled_pure_expressions_leave_their_value() {
    assert_eq!(run_only_function("return 1 + 2 * 3;"), Some(7));
    assert_eq!(run_only_function("return (10 - 4) * 2;"), Some(12));
    assert_eq!(run_only_function("return -1;"), Some(u64::MAX));
    assert_eq!(run_only_function("return !0;"), Some(1));
    assert_eq!(run_only_function("return !5;"), Some(0));
    assert_eq!(run_only_function("return 3 < 4 && true;"), Some(1));
    assert_eq!(run_only_function("return 0 - 1 + 2;"), Some(1));
    assert_eq!(run_only_function("let x = 5; let y = x * 2; return y - x;"), Some(5));
    assert_eq!(run_only_function("let x = 5; return -x + 6;"), Some(1));
}

#[test]
fn token_lines_never_go_back() {
    let mut lexer = Lexer::new("a b\n// note\n\n  c \"x\ny\" d\n");
    let tokens = lexer.tokenize().unwrap();
    for t in &tokens {
        assert!(t.line >= 1 && t.column >= 1);
    }
    for w in tokens.windows(2) {
        assert!(w[0].line <= w[1].line);
    }
    assert_eq!(tokens.last().unwrap().kind, TokenKind::Eof);
}
