use lib::codegen::Codegen;
use lib::fold::{fold_expr, optimize_tree};
use lib::lexer::{Lexer, Token, TokenKind};
use lib::parser::{Expression, Ops, Parser, ParserError, Value};

fn lex(src: &str) -> Vec<Token> {
    Lexer::new(src).parse().expect("lexes")
}

fn parse(src: &str) -> Expression {
    Parser::new(lex(src)).parse_program().expect("parses")
}

fn compile(src: &str) -> (Vec<u32>, Vec<String>) {
    Codegen::new().generate(&optimize_tree(parse(src))).expect("compiles")
}

#[test]
fn lexes_a_declaration_with_positions() {
    let ts = lex("i32 x = 5;");
    let kinds: Vec<TokenKind> = ts.iter().map(|t| t.kind.clone()).collect();
    assert_eq!(
        kinds,
        vec![
            TokenKind::I32Type,
            TokenKind::Variable("x".to_string()),
            TokenKind::Assign,
            TokenKind::NumberInteger(5),
            TokenKind::Semicolon,
            TokenKind::EOF,
        ]
    );
    let pos: Vec<(usize, usize)> = ts.iter().map(|t| (t.line, t.col)).collect();
    assert_eq!(pos, vec![(1, 1), (1, 5), (1, 7), (1, 9), (1, 10), (1, 11)]);
}

#[test]
fn lexing_ends_with_eof() {
    for src in ["", "   ", "// only a comment", "a\nb", "cout << \"hi\";"] {
        let ts = lex(src);
        assert_eq!(ts.last().unwrap().kind, TokenKind::EOF);
    }
}

#[test]
fn lexes_operators_numbers_and_literals() {
    let ts = lex("a++ -> -- >= >> <= << != && || & | ^ 0x1F 0b101 'q' '\\n' \"a\\tb\"");
    let kinds: Vec<TokenKind> = ts.iter().map(|t| t.kind.clone()).collect();
    assert_eq!(
        kinds,
        vec![
            TokenKind::Variable("a".to_string()),
            TokenKind::OpInc,
            TokenKind::Arrow,
            TokenKind::OpDec,
            TokenKind::OpGreaterOrEq,
            TokenKind::OpShiftRight,
            TokenKind::OpLessOrEq,
            TokenKind::OpShiftLeft,
            TokenKind::OpNotEq,
            TokenKind::OpAnd,
            TokenKind::OpOr,
            TokenKind::OpBitAnd,
            TokenKind::OpBitOr,
            TokenKind::OpXor,
            TokenKind::NumberInteger(31),
            TokenKind::NumberInteger(5),
            TokenKind::CharLiteral('q'),
            TokenKind::CharLiteral('\n'),
            TokenKind::StringLiteral("a\tb".to_string()),
            TokenKind::EOF,
        ]
    );
}

#[test]
fn lexes_unicode_identifiers_and_counts_lines() {
    let ts = lex("é1 =\n  _x;");
    assert_eq!(ts[0].kind, TokenKind::Variable("é1".to_string()));
    assert_eq!((ts[2].kind.clone(), ts[2].line, ts[2].col), (TokenKind::Variable("_x".to_string()), 2, 3));
}

#[test]
fn rejects_an_unexpected_character() {
    let r = Lexer::new("i32 x = $;").parse();
    assert_eq!(r, Err("Unexpected char: $".to_string()));
}

#[test]
fn reports_inputs_the_lexer_cannot_finish() {
    assert_eq!(Lexer::new("0x").try_parse(), None);
    assert_eq!(Lexer::new("99999999999").try_parse(), None);
    assert_eq!(Lexer::new("'").try_parse(), None);
    assert!(Lexer::new("1").try_parse().is_some());
}

#[test]
fn draws_the_syntax_tree() {
    let tree = parse("fn main() { cout << 1 + 2; }");
    let expected = ".\n\
└── Block\n\
\u{20}   └── Fn: main (Args: []) -> None\n\
\u{20}       └── Block\n\
\u{20}           └── Cout\n\
\u{20}               └── Op: Add\n\
\u{20}                   ├── Atom: Integer(1)\n\
\u{20}                   └── Atom: Integer(2)\n";
    assert_eq!(tree.to_string(), expected);
}

#[test]
fn draws_declarations_and_debug_values() {
    let tree = parse("fn f(i32 a, ptr b) -> i32 { i32 v[3]; cout << \"q\\\"\" << 'c'; }");
    let text = tree.to_string();
    assert!(text.contains("Fn: f (Args: [(\"i32\", \"a\"), (\"ptr\", \"b\")]) -> Some(\"i32\")\n"));
    assert!(text.contains("VarDecl: i32 v\n"));
    assert!(text.contains("    Size:\n"));
    assert!(text.contains("Atom: String(\"q\\\"\")\n"));
    assert!(text.contains("Atom: Char('c')\n"));
}

#[test]
fn parse_errors_name_what_was_expected() {
    let e = Parser::new(lex("i32 x = 5")).parse_program();
    assert!(matches!(e, Err(ParserError::UnexpectedToken(TokenKind::Semicolon, TokenKind::EOF))));
    let e = Parser::new(lex("fn (")).parse_program();
    match e {
        Err(ParserError::Generic(m)) => assert_eq!(m, "Expected identifier, found RoundBracketOpen"),
        _ => panic!("expected a generic error"),
    }
}

#[test]
fn folds_constant_operations() {
    let folded = optimize_tree(parse("fn main() { cout << 2 * 3 + -(4 / 3) - 7 % 4; }"));
    let text = folded.to_string();
    assert!(text.contains("Atom: Integer(2)\n"));
    assert!(!text.contains("Op:"));
}

#[test]
fn folding_twice_changes_nothing() {
    let once = optimize_tree(parse("fn main() { i32 x = 1; cout << (x + 2) * (3 + 4); }"));
    let text = once.to_string();
    let twice = optimize_tree(once);
    assert_eq!(twice.to_string(), text);
    assert!(text.contains("Atom: Integer(7)\n"));
}

#[test]
fn folding_refuses_overflow() {
    assert!(fold_expr(parse("fn main() { cout << 2147483647 + 1; }")).is_none());
    let min_div = Expression::Operation(
        Ops::Div,
        vec![Expression::Atom(Value::Integer(i32::MIN)), Expression::Atom(Value::Integer(-1))],
    );
    assert!(fold_expr(min_div).is_none());
    let min_rem = Expression::Operation(
        Ops::Rem,
        vec![Expression::Atom(Value::Integer(i32::MIN)), Expression::Atom(Value::Integer(-1))],
    );
    assert!(fold_expr(min_rem).is_none());
    let by_zero = Expression::Operation(
        Ops::Div,
        vec![Expression::Atom(Value::Integer(1)), Expression::Atom(Value::Integer(0))],
    );
    let kept = fold_expr(by_zero).unwrap();
    assert!(kept.to_string().contains("Op: Div"));
}

#[test]
fn generates_a_small_image_and_listing() {
    let (memory, listing) = compile("fn main() { cout << 7; }");
    assert_eq!(memory, vec![0x3040000C, 0x10200007, 0x11400004, 0x01000000]);
    assert_eq!(
        listing,
        vec![
            "0x0008  0x3040000C  JMP [0x0000C]".to_string(),
            "0x000C  fn_main:".to_string(),
            "0x000C  0x10200007  LD #7".to_string(),
            "0x0010  0x11400004  ST [0x00004]".to_string(),
            "0x0014  0x01000000  HLT".to_string(),
        ]
    );
}

#[test]
fn lays_out_strings_and_variables_after_the_code() {
    let (memory, listing) = compile("fn main() { i32 x = 1; cout << \"hi\"; }");
    // code: JMP, LD #1, ST x, LD #str, ST out, HLT = 6 words; data "hi\0"; x
    assert_eq!(memory.len(), 6 + 3 + 1);
    assert_eq!(&memory[6..9], &[b'h' as u32, b'i' as u32, 0]);
    // x lives after the data: 8 + 24 + 12 = 44
    assert_eq!(memory[2], 0x1140002C);
    // the string's address is right after the code: 8 + 24 = 32
    assert_eq!(memory[3], 0x10200020);
    assert!(listing.iter().all(|l| !l.contains("fixup")));
}

#[test]
fn refuses_an_operation_without_operands() {
    let bad = Expression::Block(vec![Expression::Operation(Ops::Assign, vec![])]);
    assert!(Codegen::new().generate(&bad).is_none());
}

#[test]
fn draws_every_kind_of_node() {
    let tree = parse(
        "fn main() { i32 a[2]; if a[0] < 1 { cin >> a; } else { return 1; } while true { f(1, 'x'); } for (i32 i = 0; i < 1; i = i + 1) { return; } }",
    );
    let text = tree.to_string();
    for needle in [
        "If\n",
        "Index Access\n",
        "Cin\n",
        "Return\n",
        "While\n",
        "Atom: Boolean(true)\n",
        "Call\n",
        "Atom: Variable(\"f\")\n",
        "Atom: Char('x')\n",
        "For\n",
        "Op: Assign\n",
        "Op: Less\n",
    ] {
        assert!(text.contains(needle), "missing {:?} in\n{}", needle, text);
    }
}

#[test]
fn tokens_come_in_order_with_one_eof_at_the_end() {
    let src = "fn main() {\n  i32 x = 1;\n  cout << x;\n}";
    let tokens = lex(src);
    let eof: Vec<&Token> = tokens.iter().filter(|t| t.kind == TokenKind::EOF).collect();
    assert_eq!(eof.len(), 1);
    assert_eq!(tokens.last().unwrap().kind, TokenKind::EOF);
    assert_eq!((tokens.last().unwrap().line, tokens.last().unwrap().col), (4, 2));
    for w in tokens.windows(2) {
        assert!((w[0].line, w[0].col) < (w[1].line, w[1].col));
    }
}

#[test]
fn a_stray_character_is_named_in_the_error() {
    assert_eq!(Lexer::new("i32 x = 1 # 2;").parse(), Err("Unexpected char: #".to_string()));
    assert!(Lexer::new("// # is fine here\ni32 x;").parse().is_ok());
}

#[test]
fn folding_keeps_the_value() {
    let folded = optimize_tree(parse("fn main() { cout << (7 - 10) / 2 * x + -(9 % 4); }"));
    let again = optimize_tree(parse("fn main() { cout << (0 - 1) * x + (0 - 1); }"));
    assert_eq!(folded.to_string(), again.to_string());
}

#[test]
fn folding_succeeds_where_no_constant_overflows() {
    assert!(fold_expr(parse("fn main() { cout << 65536 * 32767 + x * 70000 * 70000; }")).is_some());
    assert!(fold_expr(parse("fn main() { cout << -2147483647 - 1; }")).is_some());
    assert!(fold_expr(parse("fn main() { cout << (0 - 2147483647 - 1) % (0 - 1); }")).is_none());
}

#[test]
fn folding_keeps_the_shape_of_statements() {
    let folded = optimize_tree(parse("fn f(i32 a) -> i32 { i32 v[2 * 3]; if a < 1 + 1 { return 2 * a; } return 0; }"));
    let expected = optimize_tree(parse("fn f(i32 a) -> i32 { i32 v[6]; if a < 2 { return 2 * a; } return 0; }"));
    assert_eq!(folded.to_string(), expected.to_string());
}

#[test]
fn the_first_stray_character_outside_literals_is_reported() {
    assert!(Lexer::new("i32 s = \"#\"; // $\n'@';").parse().is_ok());
    assert_eq!(Lexer::new("x = 1 $ # 2;").parse(), Err("Unexpected char: $".to_string()));
}

#[test]
fn complete_literals_never_abort_the_lexer() {
    let mut lexer = Lexer::new("x = 0x7FFFFFFF + 0b101 + 2147483647 + '\\n' + \"a\\\"b\";");
    assert!(matches!(lexer.try_parse(), Some(Ok(_))));
    let mut cut = Lexer::new("x = '");
    assert!(lexer_aborts(&mut cut));
    let mut big = Lexer::new("x = 2147483648;");
    assert!(lexer_aborts(&mut big));
}

fn lexer_aborts(lexer: &mut Lexer) -> bool {
    lexer.try_parse().is_none()
}

#[test]
fn literal_arithmetic_compiles_to_immediate_code() {
    let tree = parse("fn main() { cout << 5 + 3 - 1; }");
    let (memory, _) = Codegen::new().generate(&tree).expect("compiles");
    assert_eq!(memory[1], 0x10200005);
    assert_eq!(memory[2], 0x20200003);
    assert_eq!(memory[3], 0x22200001);
}

#[test]
fn a_trailing_eof_token_changes_nothing() {
    let tokens = lex("fn main() { cout << 1; }");
    let mut shorter = lex("fn main() { cout << 1; }");
    shorter.pop();
    let a = Parser::new(tokens).parse_program().expect("parses").to_string();
    let b = Parser::new(shorter).parse_program().expect("parses").to_string();
    assert_eq!(a, b);
    let mut cut = lex("fn main() { cout << 1;");
    cut.pop();
    assert!(Parser::new(cut).parse_program().is_err());
}
